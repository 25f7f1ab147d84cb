//! Why the daemon's main loop woke up, and the process exit code that follows
//! from it: a graceful stop exits 0, a dead event listener exits non-zero so
//! that the service manager restarts the daemon. Also when a startup
//! migration that found the database busy is retried.
use vstd::prelude::*;

verus! {

/// Reason the daemon is shutting down.
#[derive(Debug, Clone, PartialEq, Eq)]
pub enum ShutdownReason {
    /// SIGINT/SIGTERM received (or every signal sender went away).
    TerminationSignal,
    /// The Hyprland event listener ended, with its error if it reported one.
    ListenerTerminated { error: Option<String> },
}

pub open spec fn describe_spec(r: ShutdownReason) -> Seq<char> {
    match r {
        ShutdownReason::TerminationSignal => "termination signal"@,
        ShutdownReason::ListenerTerminated { error: None } =>
            "Hyprland event listener stopped unexpectedly"@,
        ShutdownReason::ListenerTerminated { error: Some(e) } =>
            "Hyprland event listener failed: "@ + e@,
    }
}

pub open spec fn exit_code_spec(r: ShutdownReason) -> i32 {
    match r {
        ShutdownReason::TerminationSignal => 0,
        ShutdownReason::ListenerTerminated { .. } => 1,
    }
}

impl ShutdownReason {
    /// Human-readable description, logged before exiting.
    pub fn describe(&self) -> (s: String)
        ensures
            s@ == describe_spec(*self),
    {
        match self {
            ShutdownReason::TerminationSignal => String::from_str("termination signal"),
            ShutdownReason::ListenerTerminated { error: None } => String::from_str(
                "Hyprland event listener stopped unexpectedly",
            ),
            ShutdownReason::ListenerTerminated { error: Some(e) } => {
                let s = String::from_str("Hyprland event listener failed: ");
                s.concat(e.as_str())
            },
        }
    }
}

/// Graceful shutdown exits 0; a dead listener exits 1.
pub fn exit_code(reason: &ShutdownReason) -> (code: i32)
    ensures
        code == exit_code_spec(*reason),
        code == 0 <==> reason is TerminationSignal,
{
    match reason {
        ShutdownReason::TerminationSignal => 0,
        ShutdownReason::ListenerTerminated { .. } => 1,
    }
}

/// Message for a panic payload: the payload's text when it carried one (a
/// `&str` or a `String`), `None` for any other payload.
pub open spec fn panic_message_spec(payload: Option<String>) -> Seq<char> {
    match payload {
        Some(t) => "panicked: "@ + t@,
        None => "panicked: unknown payload"@,
    }
}

/// Text reported for a panicking listener thread.
pub fn panic_message(payload: &Option<String>) -> (s: String)
    ensures
        s@ == panic_message_spec(*payload),
{
    match payload {
        Some(t) => String::from_str("panicked: ").concat(t.as_str()),
        None => String::from_str("panicked: unknown payload"),
    }
}

/// `r` is the shutdown reason for the listener thread's outcome: `Ok(Ok(()))`
/// when it returned cleanly, `Ok(Err(message))` when it returned an error,
/// `Err(payload)` when it panicked (the payload's text, if it had one).
pub open spec fn reason_for_outcome(outcome: Result<Result<(), String>, Option<String>>, r: ShutdownReason) -> bool {
    match (outcome, r) {
        (Ok(Ok(())), ShutdownReason::ListenerTerminated { error: None }) => true,
        (Ok(Err(e)), ShutdownReason::ListenerTerminated { error: Some(m) }) => m@ == e@,
        (Err(p), ShutdownReason::ListenerTerminated { error: Some(m) }) =>
            m@ == panic_message_spec(p),
        _ => false,
    }
}

/// Maps the listener thread's outcome to the shutdown reason reported to the
/// main loop. Every outcome, a clean return included, is a terminated
/// listener.
pub fn tracker_exit_reason(outcome: Result<Result<(), String>, Option<String>>) -> (r: ShutdownReason)
    ensures
        reason_for_outcome(outcome, r),
{
    match outcome {
        Ok(Ok(())) => ShutdownReason::ListenerTerminated { error: None },
        Ok(Err(e)) => ShutdownReason::ListenerTerminated { error: Some(e) },
        Err(p) => ShutdownReason::ListenerTerminated { error: Some(panic_message(&p)) },
    }
}

/// Whatever the listener thread did (returned, failed or panicked), the
/// daemon exits non-zero afterwards, so the service manager restarts it.
pub proof fn law_listener_end_exits_nonzero(outcome: Result<Result<(), String>, Option<String>>, r: ShutdownReason)
    requires
        reason_for_outcome(outcome, r),
    ensures
        exit_code_spec(r) != 0,
{
}

/// Busy retries of the database migration at startup before giving up.
pub const MIGRATION_RETRIES: u32 = 5;

/// Whether to retry a failed database migration, and after how many
/// seconds: a busy (locked) database is retried after `2 * n` seconds on the
/// `n`-th retry, at most `MIGRATION_RETRIES` times (`retries_done` of them
/// already made); any other failure, or one past the last retry, is final.
pub fn migration_retry_delay(retries_done: u32, busy: bool) -> (r: Option<u64>)
    ensures
        r == (if busy && retries_done < MIGRATION_RETRIES {
            Some((2 * (retries_done + 1)) as u64)
        } else {
            None
        }),
{
    if busy && retries_done < MIGRATION_RETRIES {
        Some(2 * (retries_done as u64 + 1))
    } else {
        None
    }
}

} // verus!
