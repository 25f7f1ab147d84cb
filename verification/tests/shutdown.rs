use hyprtrace::daemon::shutdown::{migration_retry_delay, MIGRATION_RETRIES};
use hyprtrace::daemon::shutdown::{exit_code, panic_message, tracker_exit_reason, ShutdownReason};

#[test]
fn graceful_signal_exits_zero() {
    assert_eq!(exit_code(&ShutdownReason::TerminationSignal), 0);
}

#[test]
fn listener_error_exits_nonzero_for_systemd_restart() {
    let reason = ShutdownReason::ListenerTerminated {
        error: Some("Failed to start Hyprland event listener!".to_string()),
    };
    assert_ne!(exit_code(&reason), 0);
}

#[test]
fn listener_unexpected_clean_stop_also_exits_nonzero() {
    let reason = ShutdownReason::ListenerTerminated { error: None };
    assert_ne!(exit_code(&reason), 0);
}

#[test]
fn tracker_run_error_maps_to_listener_terminated() {
    let reason = tracker_exit_reason(Ok(Err("socket not found".to_string())));
    match &reason {
        ShutdownReason::ListenerTerminated { error: Some(e) } => {
            assert!(e.contains("socket not found"), "unexpected message: {}", e);
        }
        other => panic!("unexpected reason: {:?}", other),
    }
    assert_ne!(exit_code(&reason), 0);
}

#[test]
fn tracker_panic_maps_to_listener_terminated() {
    // A `String` panic payload carries its text.
    let payload = Some("hyprland ipc gone".to_string());
    let reason = tracker_exit_reason(Err(payload));
    match &reason {
        ShutdownReason::ListenerTerminated { error: Some(e) } => {
            assert!(e.contains("hyprland ipc gone"), "unexpected message: {}", e);
        }
        other => panic!("unexpected reason: {:?}", other),
    }
    assert_ne!(exit_code(&reason), 0);
}

#[test]
fn tracker_panic_with_str_payload_is_reported() {
    // A `&str` panic payload carries its text too.
    let payload = Some("boom".to_string());
    let reason = tracker_exit_reason(Err(payload));
    match reason {
        ShutdownReason::ListenerTerminated { error: Some(e) } => {
            assert!(e.contains("boom"), "unexpected message: {}", e);
        }
        other => panic!("unexpected reason: {:?}", other),
    }
}

#[test]
fn tracker_unexpected_clean_stop_maps_to_listener_terminated() {
    assert_eq!(
        tracker_exit_reason(Ok(Ok(()))),
        ShutdownReason::ListenerTerminated { error: None }
    );
}

#[test]
fn closed_signal_channel_defaults_to_graceful_exit() {
    let (tx, rx) = std::sync::mpsc::channel::<ShutdownReason>();
    drop(tx);
    let reason = rx.recv().unwrap_or(ShutdownReason::TerminationSignal);
    assert_eq!(exit_code(&reason), 0);
}

#[test]
fn signal_sent_through_channel_yields_graceful_exit() {
    let (tx, rx) = std::sync::mpsc::channel::<ShutdownReason>();
    tx.send(ShutdownReason::TerminationSignal).unwrap();
    drop(tx);
    let reason = rx.recv().unwrap_or(ShutdownReason::TerminationSignal);
    assert_eq!(reason, ShutdownReason::TerminationSignal);
    assert_eq!(exit_code(&reason), 0);
}

#[test]
fn shutdown_descriptions() {
    assert_eq!(ShutdownReason::TerminationSignal.describe(), "termination signal");
    assert_eq!(
        ShutdownReason::ListenerTerminated { error: None }.describe(),
        "Hyprland event listener stopped unexpectedly"
    );
    assert_eq!(
        ShutdownReason::ListenerTerminated { error: Some("x".to_string()) }.describe(),
        "Hyprland event listener failed: x"
    );
}

#[test]
fn panic_message_formats() {
    assert_eq!(panic_message(&Some("boom".to_string())), "panicked: boom");
    assert_eq!(panic_message(&None), "panicked: unknown payload");
}

#[test]
fn every_listener_outcome_exits_nonzero() {
    for outcome in [Ok(Ok(())), Ok(Err("e".to_string())), Err(None), Err(Some("p".to_string()))] {
        assert_eq!(exit_code(&tracker_exit_reason(outcome)), 1);
    }
}

#[test]
fn busy_migration_is_retried_with_growing_delay() {
    assert_eq!(MIGRATION_RETRIES, 5);
    assert_eq!(migration_retry_delay(0, true), Some(2));
    assert_eq!(migration_retry_delay(4, true), Some(10));
    assert_eq!(migration_retry_delay(5, true), None);
    assert_eq!(migration_retry_delay(0, false), None);
}
