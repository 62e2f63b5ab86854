use jitstreamer::heartbeat::{heartbeat_next, Heart, HeartbeatStep};
use jitstreamer::protocol::{attach_command, DebugStep};
use jitstreamer::session::{AttachOutcome, AttachPhase, Client, JitOutcome, JitPhase};

fn test_client() -> Client {
    Client::new(
        "10.0.0.5".to_string(),
        "ABC123".to_string(),
        "plist_storage/ABC123.plist".to_string(),
        "dmg_files".to_string(),
    )
}

/// A mock debug server: it answers each exchange from a script of outcomes
/// and records every command it was handed.
struct MockDebugServer {
    received: Vec<String>,
    fail_at: Option<usize>,
}

impl MockDebugServer {
    fn handle(&mut self, step: &DebugStep) -> bool {
        let rendered = match step {
            DebugStep::Send(c) => c.clone(),
            DebugStep::SetArgv(v) => format!("set-argv {}", v.join(" ")),
        };
        self.received.push(rendered);
        match self.fail_at {
            Some(k) => self.received.len() - 1 != k,
            None => true,
        }
    }
}

fn drive_jit(mock: &mut MockDebugServer) -> JitPhase {
    let client = test_client();
    let mut session = client.debug_app();
    session.app_info(
        Some("/containers/app".to_string()),
        Some("/containers/app/App.app/App".to_string()),
    );
    session.debug_server_attempt(true);
    while matches!(session.phase, JitPhase::Exchange) {
        let ok = {
            let step = session.current_step();
            mock.handle(step)
        };
        session.step_result(ok);
    }
    session.phase
}

#[test]
fn jit_issues_exactly_the_ordered_sequence() {
    let mut mock = MockDebugServer { received: Vec::new(), fail_at: None };
    let phase = drive_jit(&mut mock);
    assert!(matches!(phase, JitPhase::Finished(JitOutcome::Launched)));
    assert_eq!(
        mock.received,
        vec![
            "QSetMaxPacketSize: 1024".to_string(),
            "QSetWorkingDir: /containers/app".to_string(),
            "set-argv /containers/app/App.app/App /containers/app/App.app/App".to_string(),
            "qLaunchSuccess".to_string(),
            "D".to_string(),
        ]
    );
}

#[test]
fn jit_failure_at_any_step_withholds_later_steps() {
    for fail_at in 0..5usize {
        let mut mock = MockDebugServer { received: Vec::new(), fail_at: Some(fail_at) };
        let phase = drive_jit(&mut mock);
        match phase {
            JitPhase::Finished(JitOutcome::StepFailed(k)) => assert_eq!(k, fail_at),
            other => panic!("expected a failed step, got {}", discriminant_name(&other)),
        }
        // Every step up to and including the failing one was issued, none after.
        assert_eq!(mock.received.len(), fail_at + 1);
    }
}

fn discriminant_name(phase: &JitPhase) -> &'static str {
    match phase {
        JitPhase::LookupApp => "LookupApp",
        JitPhase::TryDebugServer => "TryDebugServer",
        JitPhase::CheckMounted => "CheckMounted",
        JitPhase::Exchange => "Exchange",
        JitPhase::Finished(_) => "Finished",
    }
}

#[test]
fn jit_app_not_found_ends_the_flow() {
    let client = test_client();
    let mut session = client.debug_app();
    session.app_info(None, Some("/x".to_string()));
    assert!(matches!(session.phase, JitPhase::Finished(JitOutcome::AppNotFound)));
}

#[test]
fn jit_three_refusals_then_mounted_image_is_fatal() {
    let client = test_client();
    let mut session = client.debug_app();
    session.app_info(Some("/c".to_string()), Some("/e".to_string()));
    session.debug_server_attempt(false);
    session.debug_server_attempt(false);
    assert!(matches!(session.phase, JitPhase::TryDebugServer));
    session.debug_server_attempt(false);
    assert!(matches!(session.phase, JitPhase::CheckMounted));
    session.mounted_images(2);
    assert!(matches!(session.phase, JitPhase::Finished(JitOutcome::StartFailed)));
}

#[test]
fn jit_no_mounted_image_reports_mounting() {
    let client = test_client();
    let mut session = client.debug_app();
    session.app_info(Some("/c".to_string()), Some("/e".to_string()));
    for _ in 0..3 {
        session.debug_server_attempt(false);
    }
    session.mounted_images(0);
    assert!(matches!(session.phase, JitPhase::Finished(JitOutcome::Mounting)));
}

#[test]
fn attach_command_zero_pads_uppercase_hex() {
    assert_eq!(attach_command(291), "vAttach;00000123");
    assert_eq!(attach_command(0), "vAttach;00000000");
    assert_eq!(attach_command(0xFFFF), "vAttach;0000FFFF");
    assert_eq!(attach_command(0xABC), "vAttach;00000ABC");
}

#[test]
fn attach_flow_sends_vattach_then_detach() {
    let client = test_client();
    let mut session = client.attach_debugger(291);
    session.debug_server_attempt(true);
    let mut sent: Vec<String> = Vec::new();
    while matches!(session.phase, AttachPhase::Exchange) {
        let cmd = match session.current_step() {
            DebugStep::Send(c) => c.clone(),
            DebugStep::SetArgv(_) => panic!("attach flow never sets argv"),
        };
        sent.push(cmd);
        session.step_result(true);
    }
    assert!(matches!(session.phase, AttachPhase::Finished(AttachOutcome::Attached)));
    assert_eq!(sent, vec!["vAttach;00000123".to_string(), "D".to_string()]);
}

#[test]
fn attach_mounts_between_attempts_and_gives_up_after_budget() {
    let client = test_client();
    let mut session = client.attach_debugger(7);
    // Four refusals each earn a synchronous mount; the fifth ends the flow.
    for _ in 0..4 {
        session.debug_server_attempt(false);
        assert!(matches!(session.phase, AttachPhase::MountSync));
        session.mount_result(true);
        assert!(matches!(session.phase, AttachPhase::TryDebugServer));
    }
    session.debug_server_attempt(false);
    assert!(matches!(session.phase, AttachPhase::Finished(AttachOutcome::NoDebugServer)));
}

#[test]
fn attach_failed_exchange_withholds_detach() {
    let client = test_client();
    let mut session = client.attach_debugger(291);
    session.debug_server_attempt(true);
    // The vAttach exchange fails: the detach is never issued.
    session.step_result(false);
    assert!(matches!(
        session.phase,
        AttachPhase::Finished(AttachOutcome::StepFailed(0))
    ));
}

#[test]
fn attach_failed_mount_ends_the_flow() {
    let client = test_client();
    let mut session = client.attach_debugger(7);
    session.debug_server_attempt(false);
    session.mount_result(false);
    assert!(matches!(session.phase, AttachPhase::Finished(AttachOutcome::MountFailed)));
}

#[test]
fn heartbeat_supervisor_one_loop_per_device() {
    let mut heart = Heart::new();
    let first = heart.start("UDID-1");
    assert!(first.is_some());
    // A second start for the same device spawns nothing.
    assert!(heart.start("UDID-1").is_none());
    assert!(heart.is_active("UDID-1"));
    // A different device is independent.
    assert!(heart.start("UDID-2").is_some());
    heart.kill("UDID-1");
    assert!(!heart.is_active("UDID-1"));
    assert!(heart.is_active("UDID-2"));
    // After a kill, a fresh start succeeds.
    assert!(heart.start("UDID-1").is_some());
}

#[test]
fn heartbeat_stop_flag_is_raised_by_kill() {
    let mut heart = Heart::new();
    let flag = heart.start("UDID-1").unwrap();
    assert!(!flag.is_raised());
    heart.kill("UDID-1");
    assert!(flag.is_raised());
}

#[test]
fn heartbeat_loop_decisions() {
    assert!(matches!(heartbeat_next(false, false), HeartbeatStep::Disconnect));
    assert!(matches!(heartbeat_next(false, true), HeartbeatStep::Disconnect));
    assert!(matches!(heartbeat_next(true, true), HeartbeatStep::EchoThenStop));
    assert!(matches!(heartbeat_next(true, false), HeartbeatStep::EchoThenContinue));
}

#[test]
fn connect_rejects_bad_ip_and_starts_heartbeat() {
    let mut heart = Heart::new();
    let bad = Client::new(
        "not-an-ip".to_string(),
        "U".to_string(),
        "p".to_string(),
        "d".to_string(),
    );
    assert!(matches!(bad.connect(&mut heart), Err(m) if m == "Unable to parse ip"));
    assert!(!heart.is_active("U"));
    let good = test_client();
    let (addr, flag) = good.connect(&mut heart).unwrap();
    assert_eq!(addr, (10u32 << 24) | 5);
    assert!(flag.is_some());
    assert!(heart.is_active("ABC123"));
    let (_, again) = good.connect(&mut heart).unwrap();
    assert!(again.is_none());
}
