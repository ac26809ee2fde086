use ai_proxy::backend::{
    backend_ready, backend_started, begin_cleanup, continue_cleanup, get_active_logins,
    login_finished, login_not_started, login_output, login_started, plan_login, plan_stdin,
    require_binary, reuse_backend, shutdown_backend, stop_backend, BackendPidRecord,
    BackendProcess, BinaryLookup, CleanupAction, CleanupState, HealthWait, LoginExit, LoginWatch,
    RUNNING_PROBES, STARTING_PROBES,
};
use ai_proxy::maps::TextMap;
use ai_proxy::types::login_flag_for_provider;

const RECORD: BackendPidRecord = BackendPidRecord {
    jean_pid: 10,
    server_pid: 20,
    port: 30,
};

fn cleanup(answers: &[bool]) -> Vec<CleanupAction> {
    let (mut state, action) = begin_cleanup(Some(RECORD));
    let mut actions = vec![action];
    for answer in answers {
        let (next, action) = continue_cleanup(RECORD, state, *answer);
        actions.push(action);
        state = next;
    }
    assert_eq!(state, CleanupState::Finished);
    actions
}

#[test]
fn a_wait_probes_at_most_as_often_as_told() {
    let mut wait = HealthWait::new(RUNNING_PROBES);
    let mut probes = 0;
    while wait.wants_probe() {
        wait.probed(false);
        probes += 1;
    }
    assert_eq!(probes, 5);
    assert!(!wait.is_healthy());
    let mut wait = HealthWait::new(STARTING_PROBES);
    wait.probed(false);
    wait.probed(true);
    assert!(!wait.wants_probe());
    assert!(wait.is_healthy());
    assert!(!HealthWait::new(0).wants_probe());
}

#[test]
fn a_healthy_backend_is_reused() {
    let process = BackendProcess { pid: 7, port: 8 };
    let mut slot = Some(process);
    assert_eq!(reuse_backend(&mut slot, true), Some(8));
    assert_eq!(slot, Some(process));
    assert_eq!(reuse_backend(&mut slot, false), None);
    assert_eq!(slot, None);
    assert_eq!(reuse_backend(&mut slot, true), None);
}

#[test]
fn a_started_backend_is_stopped_once() {
    let mut slot = None;
    backend_started(&mut slot, 7, 8);
    let process = BackendProcess { pid: 7, port: 8 };
    assert_eq!(stop_backend(&mut slot), Some(process));
    assert_eq!(stop_backend(&mut slot), None);
    backend_started(&mut slot, 7, 8);
    assert_eq!(shutdown_backend(&mut slot), Some(process));
    assert_eq!(shutdown_backend(&mut slot), None);
}

#[test]
fn starting_can_fail() {
    assert_eq!(backend_ready(8, true), Ok(8));
    assert_eq!(
        backend_ready(8, false),
        Err("AI proxy backend started but did not become healthy in time".to_string())
    );
    assert_eq!(require_binary(&BinaryLookup::Present), Ok(()));
    assert_eq!(
        require_binary(&BinaryLookup::Missing("/b".to_string())),
        Err("AI proxy backend binary not found at /b".to_string())
    );
    assert_eq!(
        require_binary(&BinaryLookup::Unknown("no data".to_string())),
        Err("no data".to_string())
    );
}

#[test]
fn an_unreadable_record_is_removed() {
    assert_eq!(
        begin_cleanup(None),
        (CleanupState::Finished, CleanupAction::RemoveFile)
    );
}

#[test]
fn a_backend_with_a_living_owner_is_left_alone() {
    assert_eq!(
        cleanup(&[true]),
        vec![CleanupAction::CheckProcess(10), CleanupAction::Leave]
    );
}

#[test]
fn a_dead_or_unrelated_process_is_not_killed() {
    assert_eq!(
        cleanup(&[false, false]),
        vec![
            CleanupAction::CheckProcess(10),
            CleanupAction::CheckProcess(20),
            CleanupAction::RemoveFile
        ]
    );
    assert_eq!(
        cleanup(&[false, true, false]),
        vec![
            CleanupAction::CheckProcess(10),
            CleanupAction::CheckProcess(20),
            CleanupAction::CheckHealth(30),
            CleanupAction::RemoveFile
        ]
    );
}

#[test]
fn an_orphan_is_killed_twice_if_need_be() {
    assert_eq!(
        cleanup(&[false, true, true, false])[3..],
        [
            CleanupAction::KillTreeAndCheckHealth(20, 30),
            CleanupAction::RemoveFile
        ]
    );
    assert_eq!(
        cleanup(&[false, true, true, true])[3..],
        [
            CleanupAction::KillTreeAndCheckHealth(20, 30),
            CleanupAction::KillAndRemoveFile(20)
        ]
    );
}

#[test]
fn login_flags() {
    for (provider, flag) in [
        ("house", Some("--house-login")),
        ("codex", Some("--codex-login")),
        ("github-copilot", Some("--github-copilot-login")),
        ("gemini", Some("--login")),
        ("antigravity", Some("--antigravity-login")),
        ("qwen", Some("--qwen-login")),
        ("zai", Some("")),
        ("kiro", Some("--kiro-login")),
        ("acme", None),
    ] {
        assert_eq!(login_flag_for_provider(provider, "house").as_deref(), flag);
    }
}

fn refusal(provider: &str, email: Option<&str>, active: &TextMap<u32>, binary: BinaryLookup) -> String {
    plan_login(provider, "house", email.map(str::to_string), active, &binary).unwrap_err()
}

#[test]
fn logins_are_refused_for_the_first_reason() {
    let mut active = TextMap::new();
    active.insert("codex".to_string(), 5);
    let missing = || BinaryLookup::Missing("/b".to_string());
    assert_eq!(refusal("acme", None, &active, missing()), "Unknown provider: acme");
    assert_eq!(
        refusal("zai", None, &active, missing()),
        "zai uses API keys, not OAuth"
    );
    assert_eq!(
        refusal("codex", None, &active, missing()),
        "Login already in progress for codex"
    );
    assert_eq!(
        refusal("qwen", None, &active, missing()),
        "AI proxy backend binary not found at /b"
    );
    assert_eq!(
        refusal("qwen", Some("  "), &active, BinaryLookup::Present),
        "Qwen login requires an email address"
    );
}

#[test]
fn logins_are_planned() {
    let active = TextMap::new();
    let plan = plan_login(
        "qwen",
        "house",
        Some(" me@example.com ".to_string()),
        &active,
        &BinaryLookup::Present,
    )
    .unwrap();
    assert_eq!(plan.flag, "--qwen-login");
    assert_eq!(plan.email.as_deref(), Some("me@example.com"));
    assert!(plan.needs_stdin);
    let other = plan_login("kiro", "house", None, &active, &BinaryLookup::Present).unwrap();
    assert_eq!(other.provider, "kiro");
    assert!(other.email.is_none());
    assert!(!other.needs_stdin);
}

#[test]
fn one_login_of_a_provider_at_a_time() {
    let mut active = TextMap::new();
    let started = login_started(&mut active, "codex", 77);
    assert_eq!(started.provider, "codex");
    assert_eq!(started.status, "started");
    assert_eq!(get_active_logins(&active), vec!["codex"]);
    assert!(plan_login("codex", "house", None, &active, &BinaryLookup::Present).is_err());
    assert!(plan_login("gemini", "house", None, &active, &BinaryLookup::Present).is_ok());
    let (output, status) = login_finished(&mut active, "codex", false, LoginExit::Success);
    assert!(output.is_none());
    assert_eq!(status.status, "completed");
    assert!(get_active_logins(&active).is_empty());
    assert!(plan_login("codex", "house", None, &active, &BinaryLookup::Present).is_ok());
}

#[test]
fn failed_logins_say_why() {
    let mut active = TextMap::new();
    let (output, status) = login_finished(
        &mut active,
        "kiro",
        false,
        LoginExit::Failure("exit status: 1".to_string()),
    );
    assert_eq!(
        output.unwrap().line,
        "Login process exited unsuccessfully: exit status: 1"
    );
    assert_eq!(status.status, "failed");
    let (output, status) = login_finished(
        &mut active,
        "kiro",
        false,
        LoginExit::Lost("gone".to_string()),
    );
    assert_eq!(
        output.unwrap().line,
        "Failed waiting for login process exit: gone"
    );
    assert_eq!(status.status, "failed");
    let (output, status) = login_finished(
        &mut active,
        "kiro",
        true,
        LoginExit::Failure("signal: 9".to_string()),
    );
    assert!(output.is_none());
    assert_eq!(status.status, "timed_out");
    assert_eq!(
        login_not_started("kiro", "no such file"),
        "Failed to trigger login for kiro: no such file"
    );
}

#[test]
fn what_is_written_to_login_processes() {
    let none = None;
    let email = Some("me@example.com".to_string());
    let gemini = plan_stdin("gemini", &none).unwrap();
    assert_eq!((gemini.delay_secs, gemini.text.as_str()), (3, "\n"));
    let codex = plan_stdin("codex", &email).unwrap();
    assert_eq!((codex.delay_secs, codex.text.as_str()), (12, "\n"));
    let qwen = plan_stdin("qwen", &email).unwrap();
    assert_eq!((qwen.delay_secs, qwen.text.as_str()), (10, "me@example.com\n"));
    assert!(plan_stdin("qwen", &none).is_none());
    assert!(plan_stdin("kiro", &email).is_none());
}

#[test]
fn output_lines_are_trimmed() {
    let event = login_output("codex", "  code: 1234 \r").unwrap();
    assert_eq!(event.provider, "codex");
    assert_eq!(event.line, "code: 1234");
    assert!(login_output("codex", " \t ").is_none());
}

#[test]
fn the_timeout_loses_against_an_earlier_exit() {
    let mut watch = LoginWatch::new();
    watch.process_ended();
    assert!(!watch.time_is_up());
    assert!(!watch.timed_out);
    let mut watch = LoginWatch::new();
    assert!(watch.time_is_up());
    watch.process_ended();
    assert!(watch.timed_out);
}
