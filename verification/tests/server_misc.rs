use hyprtrace::server::auth::{guard_verdict, request_has_valid_token, GuardVerdict};
use hyprtrace::server::models::{CategoryRule, Project, ProjectRule};
use hyprtrace::server::pairs::{day_pairs, ClassStart};
use hyprtrace::server::rules::{categorize, known_categories, normalized_category_rule, project_for_class, project_row, rule_row};
use hyprtrace::server::schedule::{
    clean_insight, format_duration, proactive_interval_secs, proactive_step, report_notification_body,
    retention_enabled, week_key, weekly_report_due, SentWeeks,
};
use hyprtrace::server::stream::{
    decode_line, ollama_step, sse_line, ChunkDelta, LineBuffer, OllamaStep, SseLine, StreamState,
    ToolCallFragment,
};
use hyprtrace::server::tools::{
    check_set_goal, delete_goal_scope, instance_signature, limit_arg, parse_goal_args, truncate,
    GoalArg,
};

fn rule(pattern: &str, category: &str) -> CategoryRule {
    CategoryRule { id: None, pattern: pattern.to_string(), category: category.to_string(), priority: 0 }
}

#[test]
fn categorize_uses_first_matching_rule() {
    let rules = vec![rule("code%", "development"), rule("%fox", "browsing"), rule("%", "catchall")];
    assert_eq!(categorize(&rules, "Code-Insiders"), "development");
    assert_eq!(categorize(&rules, "firefox"), "browsing");
    assert_eq!(categorize(&rules, "mpv"), "catchall");
    assert_eq!(categorize(&rules[..2].to_vec(), "mpv"), "other");
    assert_eq!(known_categories().len(), 9);
    assert_eq!(known_categories()[8], "other");
}

#[test]
fn projects_and_rules_roundtrip_and_match() {
    let projects = vec![
        Project { id: Some(1), name: "课设".to_string(), color: "#22d3ee".to_string(), sort_order: 0 },
        Project { id: Some(2), name: "Open Source".to_string(), color: "#a855f7".to_string(), sort_order: 1 },
    ];
    let rules = vec![
        ProjectRule { id: Some(1), project_id: 1, pattern: "code%".to_string(), priority: 0 },
        ProjectRule { id: Some(2), project_id: 2, pattern: "firefox".to_string(), priority: 0 },
    ];
    assert_eq!(project_for_class(&rules, &projects, "code").unwrap().name, "课设");
    assert_eq!(project_for_class(&rules, &projects, "Code-OSS").unwrap().name, "课设");
    assert_eq!(project_for_class(&rules, &projects, "firefox").unwrap().name, "Open Source");
    assert!(project_for_class(&rules, &projects, "kitty").is_none());
    // A rule pointing at a missing project is skipped in favour of the next.
    let rules2 = vec![
        ProjectRule { id: Some(3), project_id: 9, pattern: "%".to_string(), priority: 5 },
        ProjectRule { id: Some(1), project_id: 1, pattern: "code%".to_string(), priority: 0 },
    ];
    assert_eq!(project_for_class(&rules2, &projects, "code").unwrap().id, Some(1));
}

#[test]
fn saved_rows_are_normalized() {
    assert_eq!(normalized_category_rule(&rule(" code ", " development ")), ("code".to_string(), "development".to_string(), 0));
    let p = Project { id: None, name: "  A ".to_string(), color: " ".to_string(), sort_order: 7 };
    assert_eq!(project_row(&p, 3), Some(("A".to_string(), "#22d3ee".to_string(), 3)));
    let blank = Project { id: None, name: " ".to_string(), color: "#fff".to_string(), sort_order: 0 };
    assert_eq!(project_row(&blank, 0), None);
    assert_eq!(rule_row(" kitty ", true), Some("kitty".to_string()));
    assert_eq!(rule_row("kitty", false), None);
    assert_eq!(rule_row("  ", true), None);
}

#[test]
fn guard_verdicts() {
    assert_eq!(guard_verdict("/summary", Some("https://evil.com"), &None, None, None), GuardVerdict::CrossOrigin);
    assert_eq!(guard_verdict("/summary", Some("http://localhost:5173"), &None, None, None), GuardVerdict::Allow);
    let tok = Some("s3cret".to_string());
    assert_eq!(guard_verdict("/summary", None, &tok, None, None), GuardVerdict::Unauthenticated);
    assert_eq!(guard_verdict("/health", None, &tok, None, None), GuardVerdict::Allow);
    assert_eq!(guard_verdict("/api/health", None, &tok, None, None), GuardVerdict::Allow);
    assert_eq!(guard_verdict("/summary", None, &tok, Some("s3cret"), None), GuardVerdict::Allow);
    assert_eq!(guard_verdict("/summary", None, &tok, None, Some("Bearer s3cret")), GuardVerdict::Allow);
    assert_eq!(guard_verdict("/summary", None, &tok, None, Some("Basic s3cret")), GuardVerdict::Unauthenticated);
    assert_eq!(guard_verdict("/summary", None, &Some(String::new()), None, None), GuardVerdict::Allow);
    assert!(!request_has_valid_token(Some("x"), Some("Bearer y"), "z"));
}

#[test]
fn weekly_report_scheduling() {
    assert_eq!(format_duration(0), "0m");
    assert_eq!(format_duration(-5), "0m");
    assert_eq!(format_duration(45_000), "45s");
    assert_eq!(format_duration(12 * 60_000), "12m");
    assert_eq!(format_duration((34 * 3600 + 12 * 60) * 1000), "34h 12m");
    assert!(weekly_report_due(1, 9, 0, 1, 9, 0));
    assert!(weekly_report_due(1, 10, 0, 1, 9, 30));
    assert!(!weekly_report_due(1, 9, 29, 1, 9, 30));
    assert!(!weekly_report_due(2, 10, 0, 1, 9, 0));
    assert_eq!(week_key(2025, 7), "2025-07");
    assert_eq!(week_key(2025, 52), "2025-52");
    let mut sent = SentWeeks::new();
    assert!(sent.mark_sent("2025-07"));
    assert!(!sent.mark_sent("2025-07"));
    assert!(sent.mark_sent("2025-08"));
    assert_eq!(
        report_notification_body(3_600_000, "kitty", 60_000, "/r.md"),
        "Week total: 1h 0m · Top app: kitty (1m) · Report: /r.md"
    );
    assert_eq!(report_notification_body(0, "", 0, "/r.md"), "Week total: 0m · Report: /r.md");
    assert!(!retention_enabled(0));
    assert!(retention_enabled(30));
}

#[test]
fn proactive_insights() {
    assert_eq!(proactive_interval_secs(5), 900);
    assert_eq!(proactive_interval_secs(120), 7200);
    assert_eq!(clean_insight("  \"Take a break\"  "), "Take a break");
    assert_eq!(clean_insight("\"\"\""), "");
    let mut last = None;
    assert_eq!(proactive_step(&mut last, "  "), None);
    assert_eq!(proactive_step(&mut last, " Late night! "), Some("Late night!".to_string()));
    assert_eq!(proactive_step(&mut last, "Late night!"), None);
    assert_eq!(proactive_step(&mut last, "Gaming spike"), Some("Gaming spike".to_string()));
}

#[test]
fn tool_argument_handling() {
    assert_eq!(truncate("hello", 5), "hello");
    assert_eq!(truncate("hello world", 5), "hello…");
    assert_eq!(truncate("日本語テキスト", 3), "日本語…");
    assert_eq!(limit_arg(None, 10, 1, 25), 10);
    assert_eq!(limit_arg(Some(100), 10, 1, 25), 25);
    assert_eq!(limit_arg(Some(-3), 20, 1, 50), 1);
    let goals = parse_goal_args(&vec![
        GoalArg { name: Some("code".to_string()), target_type: None, target_key: None, daily_target_ms: Some(3_600_000), enabled: None },
        GoalArg { name: None, target_type: Some("class".to_string()), target_key: None, daily_target_ms: None, enabled: None },
        GoalArg { name: Some("ff".to_string()), target_type: Some("class".to_string()), target_key: Some("firefox".to_string()), daily_target_ms: None, enabled: Some(false) },
    ]);
    assert_eq!(goals.len(), 2);
    assert_eq!(goals[0].target_type, "all");
    assert!(goals[0].enabled);
    assert_eq!(goals[1].daily_target_ms, 0);
    assert!(!goals[1].enabled);
    assert_eq!(check_set_goal(0, false), Err("set_goal requires at least one goal with a name".to_string()));
    assert_eq!(check_set_goal(0, true), Ok(()));
    assert_eq!(check_set_goal(2, false), Ok(()));
    assert_eq!(delete_goal_scope(&None, &None), Err("missing required argument: target_type".to_string()));
    assert_eq!(delete_goal_scope(&Some(String::new()), &None), Err("missing required argument: target_type".to_string()));
    assert_eq!(
        delete_goal_scope(&Some("class".to_string()), &None),
        Err("delete_goal requires target_key when target_type is 'class'".to_string())
    );
    assert_eq!(delete_goal_scope(&Some("class".to_string()), &Some("kitty".to_string())), Ok(()));
    assert_eq!(delete_goal_scope(&Some("all".to_string()), &None), Ok(()));
}

#[test]
fn hyprctl_instance_signature() {
    let out = "instance abc_123_def:\n\ttime: 1\n\tpid: 42\n\twl socket: wayland-1\n\ninstance other:\n";
    assert_eq!(instance_signature(out), Some("abc_123_def".to_string()));
    assert_eq!(instance_signature("  instance  sig \n"), Some("sig".to_string()));
    assert_eq!(instance_signature("no instances\n"), None);
}

#[test]
fn sse_stream_framing_and_tool_calls() {
    let mut buf = LineBuffer::new();
    let lines = buf.push(b"data: {\"a\":1}\n\ndata: [DO");
    assert_eq!(lines.len(), 2);
    assert_eq!(decode_line(&lines[0]), "data: {\"a\":1}");
    assert_eq!(sse_line(&decode_line(&lines[0])), SseLine::Data("{\"a\":1}".to_string()));
    assert_eq!(sse_line(&decode_line(&lines[1])), SseLine::Skip);
    let lines = buf.push(b"NE]\r\n");
    assert_eq!(lines.len(), 1);
    assert_eq!(sse_line(&decode_line(&lines[0])), SseLine::Done);
    assert_eq!(decode_line(&vec![0xff, 0xfe]), "");
    assert_eq!(sse_line(": keep-alive"), SseLine::Skip);

    let mut st = StreamState::new();
    let frag = |index: usize, id: Option<&str>, name: Option<&str>, args: Option<&str>| ToolCallFragment {
        index,
        id: id.map(String::from),
        name: name.map(String::from),
        arguments: args.map(String::from),
    };
    let t = st.apply_chunk(ChunkDelta {
        finish_reason: None,
        tool_calls: vec![frag(1, Some("call_b"), Some("clients"), Some("{")), frag(0, None, Some("version"), None)],
        content: Some("Hi".to_string()),
    });
    assert_eq!(t, Some("Hi".to_string()));
    let t = st.apply_chunk(ChunkDelta {
        finish_reason: Some("tool_calls".to_string()),
        tool_calls: vec![frag(1, Some(""), None, Some("}")), frag(2, None, None, Some("{}"))],
        content: Some(String::new()),
    });
    assert_eq!(t, None);
    assert_eq!(st.finish_reason, "tool_calls");
    let calls = st.calls.finish();
    assert_eq!(
        calls,
        vec![
            ("call_0".to_string(), "version".to_string(), String::new()),
            ("call_b".to_string(), "clients".to_string(), "{}".to_string()),
        ]
    );
    assert_eq!(ollama_step(true, Some("x".to_string())), OllamaStep::Stop);
    assert_eq!(ollama_step(false, Some("x".to_string())), OllamaStep::Emit("x".to_string()));
    assert_eq!(ollama_step(false, Some(String::new())), OllamaStep::Skip);
    assert_eq!(ollama_step(false, None), OllamaStep::Skip);
}

#[test]
fn cooccurrence_dedupes_within_window() {
    // kitty=0, firefox=1 (ids in name order would be firefox < kitty; any
    // order works here). Five interleaved sessions within one window count
    // once; a later burst after the window counts again.
    let m = 60_000i64;
    let s = vec![
        ClassStart { class: 1, start_ms: Some(0) },
        ClassStart { class: 0, start_ms: Some(1 * m) },
        ClassStart { class: 1, start_ms: Some(2 * m) },
        ClassStart { class: 0, start_ms: Some(3 * m) },
        ClassStart { class: 1, start_ms: Some(4 * m) },
        ClassStart { class: 2, start_ms: None },
        ClassStart { class: 0, start_ms: Some(100 * m) },
        ClassStart { class: 1, start_ms: Some(101 * m) },
    ];
    let t = day_pairs(&s, 30 * m);
    let pairs = t.pairs();
    assert_eq!(pairs, vec![(0, 1, 2, 2 * m)]);
}
