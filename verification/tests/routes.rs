use hyprtrace::server::models::{AiMessage, Project};
use hyprtrace::server::routes::ai::{
    after_round, chat_error_message, choose_provider, history_turns, message_is_blank,
    needs_tool_only_marker, should_save_partial, tool_result_address, tool_result_content,
    AgentAction, AgentRound, RoundOutcome, MAX_ROUNDS,
};
use hyprtrace::server::routes::data::{disruption_limit, duplicate_project_name, page_offset};
use hyprtrace::server::routes::insights::{CooccurrenceQuery, ForecastQuery, TransitionsQuery};

fn project(name: &str) -> Project {
    Project { id: None, name: name.to_string(), color: String::new(), sort_order: 0 }
}

#[test]
fn duplicate_project_names_are_found_after_trimming() {
    assert_eq!(duplicate_project_name(&vec![project("a"), project("b")]), None);
    assert_eq!(duplicate_project_name(&vec![project("a"), project(" a ")]), Some("a".to_string()));
    assert_eq!(duplicate_project_name(&vec![project(" "), project(""), project("x")]), None);
    assert_eq!(
        duplicate_project_name(&vec![project("x"), project("y"), project("y"), project("x")]),
        Some("y".to_string())
    );
}

#[test]
fn query_clamps() {
    assert_eq!(disruption_limit(0), 1);
    assert_eq!(disruption_limit(500), 200);
    assert_eq!(disruption_limit(20), 20);
    let t = TransitionsQuery { from: None, to: None, min_ms: -5, limit: 1000 };
    assert_eq!(t.clamped(), (0, 100));
    let f = ForecastQuery { class: Some(String::new()), days: 0, horizon: 1000 };
    assert_eq!(f.clamped(), (None, 1, 365));
    let f = ForecastQuery { class: Some("kitty".to_string()), days: 30, horizon: 7 };
    assert_eq!(f.clamped(), (Some("kitty".to_string()), 30, 7));
    let c = CooccurrenceQuery { from: None, to: None, window_minutes: 10_000, limit: 0 };
    assert_eq!(c.clamped(), (1_440, 1));
}

fn msg(role: &str, content: &str, complete: Option<bool>) -> AiMessage {
    AiMessage {
        id: 0,
        created_at: String::new(),
        role: role.to_string(),
        content: content.to_string(),
        model: String::new(),
        complete,
    }
}

#[test]
fn chat_history_alternates_and_skips_broken_messages() {
    let h = vec![
        msg("user", "hi", Some(true)),
        msg("user", "again", None),
        msg("assistant", "  ", Some(false)),
        msg("assistant", "hello", Some(false)),
        msg("assistant", "more", Some(true)),
        msg("user", "q", None),
    ];
    let turns = history_turns(&h);
    assert_eq!(
        turns,
        vec![
            ("user".to_string(), "hi".to_string()),
            ("assistant".to_string(), "hello".to_string()),
            ("user".to_string(), "q".to_string()),
        ]
    );
}

#[test]
fn provider_choice_and_errors() {
    assert_eq!(choose_provider(&None, "ollama", false), Ok("ollama".to_string()));
    assert_eq!(
        choose_provider(&Some("openai".to_string()), "ollama", false),
        Err("Please configure OpenAI API Key".to_string())
    );
    assert_eq!(choose_provider(&Some("openai".to_string()), "ollama", true), Ok("openai".to_string()));
    assert_eq!(chat_error_message("OpenAI API key not configured"), "Please configure OpenAI API Key");
    assert_eq!(chat_error_message("connection refused"), "AI service unavailable");
    assert!(message_is_blank(" \n\t"));
    assert!(!message_is_blank(" x "));
}

#[test]
fn agent_round_decisions() {
    let at = |round: usize, tools_enabled: bool| AgentRound { round, tools_enabled };
    let bad = || RoundOutcome::ProviderFailed { error: "bad".to_string() };
    assert_eq!(AgentRound::first(), at(0, true));
    assert_eq!(after_round(at(0, true), &bad()), (AgentAction::RetryWithoutTools, Some(at(1, false))));
    assert_eq!(
        after_round(at(1, false), &bad()),
        (AgentAction::Fail { message: "AI error: bad".to_string() }, None)
    );
    assert_eq!(
        after_round(at(0, false), &bad()),
        (AgentAction::Fail { message: "AI error: bad".to_string() }, None)
    );
    assert_eq!(
        after_round(at(2, true), &RoundOutcome::TaskFailed),
        (AgentAction::Fail { message: "Internal agent error".to_string() }, None)
    );
    assert_eq!(after_round(at(3, true), &RoundOutcome::Completed { tool_calls: 0 }), (AgentAction::Finish, None));
    assert_eq!(
        after_round(at(3, true), &RoundOutcome::Completed { tool_calls: 2 }),
        (AgentAction::RunTools, Some(at(4, true)))
    );
    assert_eq!(MAX_ROUNDS, 6);
    assert_eq!(after_round(at(5, false), &RoundOutcome::Completed { tool_calls: 1 }), (AgentAction::RunTools, None));
    assert!(needs_tool_only_marker(false, "  "));
    assert!(!needs_tool_only_marker(true, ""));
    assert!(!needs_tool_only_marker(false, "text"));
    assert_eq!(tool_result_content(&Ok("{}".to_string())), "{}");
    assert_eq!(tool_result_content(&Err("boom".to_string())), "Error: boom");
    assert_eq!(tool_result_address("openai", "c1", "clients"), (Some("c1".to_string()), None));
    assert_eq!(tool_result_address("ollama", "c1", "clients"), (None, Some("clients".to_string())));
    assert!(should_save_partial(5, 0));
    assert!(should_save_partial(3, 3));
    assert!(!should_save_partial(3, 2));
}

#[test]
fn page_offsets_start_at_page_one() {
    assert_eq!(page_offset(1, 50), 0);
    assert_eq!(page_offset(3, 20), 40);
    assert_eq!(page_offset(0, 20), 0);
}

#[test]
fn agent_runs_at_most_max_rounds() {
    let mut at = Some(AgentRound::first());
    let mut rounds = 0;
    while let Some(a) = at {
        rounds += 1;
        at = after_round(a, &RoundOutcome::Completed { tool_calls: 1 }).1;
    }
    assert_eq!(rounds, MAX_ROUNDS);
}
