//! `/api/ai/*`: chat request shapes and the decisions around a chat: which
//! provider answers, which stored history goes along, what an error tells
//! the user, and how the tool-calling agent proceeds from round to round.
use vstd::prelude::*;
use crate::server::models::AiMessage;
use crate::text::{chars_of, contains_seq, contains_str, str_eq, trim, trim_chars};

verus! {

#[derive(Debug, Clone)]
pub struct AiModelsResponse {
    pub providers: std::collections::HashMap<String, Vec<String>>,
    pub default: String,
}

#[derive(Debug, Clone)]
pub struct WeeklyReportRequest {
    pub provider: Option<String>,
    pub model: Option<String>,
}

#[derive(Debug, Clone)]
pub struct AiChatRequest {
    pub provider: Option<String>,
    pub model: Option<String>,
    pub message: String,
    pub include_data: bool,
    pub date_range: Option<String>,
}

#[derive(Debug, Clone)]
pub struct AiChatResponse {
    pub reply: String,
    pub model: String,
}

/// A message that is empty or only whitespace is refused.
pub fn message_is_blank(message: &str) -> (r: bool)
    ensures
        r == (trim(message@).len() == 0),
{
    trim_chars(&chars_of(message)).len() == 0
}

/// The provider that answers: the requested one, else the default. OpenAI
/// without an API key is refused with the message the UI shows.
pub fn choose_provider(requested: &Option<String>, default_provider: &str, openai_configured: bool) -> (r: Result<String, String>)
    ensures
        ({
            let name = match requested {
                Some(p) => p@,
                None => default_provider@,
            };
            match r {
                Ok(p) => p@ == name && !(name == "openai"@ && !openai_configured),
                Err(e) => name == "openai"@ && !openai_configured && e@
                    == "Please configure OpenAI API Key"@,
            }
        }),
{
    let name = match requested {
        Some(p) => p.clone(),
        None => default_provider.to_owned(),
    };
    if str_eq(name.as_str(), "openai") && !openai_configured {
        return Err(String::from_str("Please configure OpenAI API Key"));
    }
    Ok(name)
}

/// The stored history that goes along with a chat, oldest first: unfinished
/// messages left empty by an interrupted stream are dropped, and a message
/// whose role repeats the previous kept one is dropped too, so roles
/// alternate.
pub open spec fn history_turns_spec(h: Seq<AiMessage>) -> (Seq<(Seq<char>, Seq<char>)>, Seq<char>)
    decreases h.len(),
{
    if h.len() == 0 {
        (Seq::empty(), Seq::<char>::empty())
    } else {
        let (turns, last_role) = history_turns_spec(h.drop_last());
        let m = h.last();
        if m.complete == Some(false) && trim(m.content@).len() == 0 {
            (turns, last_role)
        } else if m.role@ == last_role {
            (turns, last_role)
        } else {
            (turns.push((m.role@, m.content@)), m.role@)
        }
    }
}

pub open spec fn turn_views(t: Seq<(String, String)>) -> Seq<(Seq<char>, Seq<char>)> {
    t.map_values(|e: (String, String)| (e.0@, e.1@))
}

/// `(role, content)` of the history messages sent with a chat.
pub fn history_turns(history: &Vec<AiMessage>) -> (r: Vec<(String, String)>)
    ensures
        turn_views(r@) == history_turns_spec(history@).0,
{
    let mut turns: Vec<(String, String)> = Vec::new();
    let mut last_role = String::new();
    let mut i: usize = 0;
    while i < history.len()
        invariant
            i <= history@.len(),
            (turn_views(turns@), last_role@) == history_turns_spec(history@.take(i as int)),
        decreases history@.len() - i,
    {
        let m = &history[i];
        proof {
            assert(history@.take(i + 1).drop_last() =~= history@.take(i as int));
            assert(history@.take(i + 1).last() == history@[i as int]);
        }
        let blank_unfinished = match m.complete {
            Some(c) => !c && message_is_blank(m.content.as_str()),
            None => false,
        };
        if !blank_unfinished && !str_eq(m.role.as_str(), last_role.as_str()) {
            let ghost before = turn_views(turns@);
            turns.push((m.role.clone(), m.content.clone()));
            assert(turn_views(turns@) =~= before.push((m.role@, m.content@)));
            last_role = m.role.clone();
        }
        i = i + 1;
    }
    assert(history@.take(history@.len() as int) =~= history@);
    turns
}

/// What a failed chat tells the user: a missing key when the provider's
/// error mentions `API key`, else that the service is unavailable.
pub fn chat_error_message(error: &str) -> (m: String)
    ensures
        m@ == (if contains_seq(error@, "API key"@) {
            "Please configure OpenAI API Key"@
        } else {
            "AI service unavailable"@
        }),
{
    if contains_str(error, "API key") {
        String::from_str("Please configure OpenAI API Key")
    } else {
        String::from_str("AI service unavailable")
    }
}

/// While streaming, the partial reply is saved every fifth chunk and at
/// least every three seconds.
pub fn should_save_partial(chunk_count: u64, secs_since_save: u64) -> (r: bool)
    ensures
        r == (chunk_count % 5 == 0 || secs_since_save >= 3),
{
    chunk_count % 5 == 0 || secs_since_save >= 3
}

/// Rounds of model calls the agent makes at most.
pub const MAX_ROUNDS: usize = 6;

/// How one round of the agent's model call ended.
#[derive(Debug, Clone, PartialEq, Eq)]
pub enum RoundOutcome {
    /// The stream completed, asking for this many tool calls.
    Completed { tool_calls: usize },
    /// The provider reported an error.
    ProviderFailed { error: String },
    /// The task running the call did not finish.
    TaskFailed,
}

/// What the agent does next.
#[derive(Debug, Clone, PartialEq, Eq)]
pub enum AgentAction {
    /// Run the next round without tools (some models reject tool schemas).
    RetryWithoutTools,
    /// Report this error to the client and stop.
    Fail { message: String },
    /// The model answered without tool calls: the conversation is done.
    Finish,
    /// Execute the requested tools and go on with the next round.
    RunTools,
}

/// Where the agent's loop stands: the round about to run and whether tools
/// are still offered to the model.
#[derive(Debug, Clone, Copy, PartialEq, Eq)]
pub struct AgentRound {
    pub round: usize,
    pub tools_enabled: bool,
}

impl AgentRound {
    /// The first round, with tools offered.
    pub fn first() -> (r: Self)
        ensures
            r.round == 0,
            r.tools_enabled,
    {
        AgentRound { round: 0, tools_enabled: true }
    }
}

/// The round after `at`, if the agent has rounds left.
pub open spec fn following(at: AgentRound, tools_enabled: bool) -> Option<AgentRound> {
    if at.round + 1 < MAX_ROUNDS {
        Some(AgentRound { round: (at.round + 1) as usize, tools_enabled })
    } else {
        None
    }
}

/// Decides the agent's next step after a round, and the round to run next
/// (`None` when the loop ends): a provider error on the first tool-enabled
/// round is retried without tools in the next round, any other failure ends
/// the conversation with an error (`AI error: ...`, or an internal error
/// when the task itself failed), a round without tool calls ends it
/// normally, and a round with tool calls goes on to the next round while
/// fewer than `MAX_ROUNDS` rounds have run.
pub fn after_round(at: AgentRound, outcome: &RoundOutcome) -> (r: (AgentAction, Option<AgentRound>))
    requires
        at.round < MAX_ROUNDS,
    ensures
        match outcome {
            RoundOutcome::Completed { tool_calls } => if *tool_calls == 0 {
                r.0 == AgentAction::Finish && r.1 is None
            } else {
                r.0 == AgentAction::RunTools && r.1 == following(at, at.tools_enabled)
            },
            RoundOutcome::ProviderFailed { error } => if at.round == 0 && at.tools_enabled {
                r.0 == AgentAction::RetryWithoutTools && r.1 == following(at, false)
            } else {
                r.0 matches AgentAction::Fail { message } && message@ == "AI error: "@ + error@ && r.1 is None
            },
            RoundOutcome::TaskFailed => r.0 matches AgentAction::Fail { message } && message@
                == "Internal agent error"@ && r.1 is None,
        },
        r.1 matches Some(n) ==> n.round == at.round + 1 && n.round < MAX_ROUNDS,
{
    let next_tools = match outcome {
        RoundOutcome::ProviderFailed { .. } => false,
        _ => at.tools_enabled,
    };
    let next = if at.round + 1 < MAX_ROUNDS {
        Some(AgentRound { round: at.round + 1, tools_enabled: next_tools })
    } else {
        None
    };
    match outcome {
        RoundOutcome::Completed { tool_calls } => {
            if *tool_calls == 0 {
                (AgentAction::Finish, None)
            } else {
                (AgentAction::RunTools, next)
            }
        },
        RoundOutcome::ProviderFailed { error } => {
            if at.round == 0 && at.tools_enabled {
                (AgentAction::RetryWithoutTools, next)
            } else {
                (AgentAction::Fail { message: String::from_str("AI error: ").concat(error.as_str()) }, None)
            }
        },
        RoundOutcome::TaskFailed => (AgentAction::Fail { message: String::from_str("Internal agent error") }, None),
    }
}

/// A conversation answered only through tool calls gets a marker message in
/// the history, so the stored conversation is not left without a reply.
pub fn needs_tool_only_marker(reply_saved: bool, full_text: &str) -> (r: bool)
    ensures
        r == (!reply_saved && trim(full_text@).len() == 0),
{
    !reply_saved && message_is_blank(full_text)
}

/// The content of the tool-result message handed back to the model.
pub fn tool_result_content(result: &Result<String, String>) -> (c: String)
    ensures
        c@ == (match result {
            Ok(r) => r@,
            Err(e) => "Error: "@ + e@,
        }),
{
    match result {
        Ok(r) => r.clone(),
        Err(e) => String::from_str("Error: ").concat(e.as_str()),
    }
}

/// How a tool result is addressed: OpenAI by the call's id, other providers
/// by the tool's name. Returns `(tool_call_id, name)`.
pub fn tool_result_address(provider: &str, call_id: &str, call_name: &str) -> (r: (Option<String>, Option<String>))
    ensures
        provider@ == "openai"@ ==> (r.0 matches Some(i) && i@ == call_id@) && r.1 is None,
        provider@ != "openai"@ ==> r.0 is None && (r.1 matches Some(n) && n@ == call_name@),
{
    if str_eq(provider, "openai") {
        (Some(call_id.to_owned()), None)
    } else {
        (None, Some(call_name.to_owned()))
    }
}

} // verus!
