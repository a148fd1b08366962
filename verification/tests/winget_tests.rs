use winget_gate::audit::{AuditAction, AuditLog};
use winget_gate::models::{WingetCommandResult, WingetPackage};
use winget_gate::winget::{
    choose_output, listing_json, package_members, Channel, Decision, Execution, Host, Session,
    Step, StreamEvent, WingetWrapper,
};

fn host() -> Host {
    Host { audit: AuditLog::new(), events: Vec::new() }
}

fn ran(stdout: &[&str], stderr: &[&str], code: Option<i32>) -> Execution {
    Execution::Ran {
        stdout: stdout.iter().map(|l| l.to_string()).collect(),
        stderr: stderr.iter().map(|l| l.to_string()).collect(),
        code,
    }
}

fn event(channel: Channel, line: &str) -> StreamEvent {
    StreamEvent { channel, line: line.to_string() }
}

fn started(args: &[&str]) -> Session {
    match WingetWrapper::prepare(args) {
        Decision::Run(_, session) => session,
        Decision::Blocked(_) => panic!("the command was refused"),
    }
}

const INSTALL: [&str; 5] =
    ["install", "--id", "Foo.App", "--accept-source-agreements", "--accept-package-agreements"];

#[test]
fn blocked_command_is_completed_without_a_launch() {
    match WingetWrapper::prepare(&["format", "c:"]) {
        Decision::Blocked(done) => {
            assert_eq!(
                done.result,
                WingetCommandResult {
                    success: false,
                    output: None,
                    error: Some("Command blocked by security policy".to_string()),
                    code: Some(-1),
                }
            );
            assert_eq!(done.audit.action, AuditAction::Blocked);
            assert_eq!(done.audit.details, "format c:");
            assert_eq!(done.audit.result, "Security Violations: Command not allowed");
        }
        Decision::Run(_, _) => panic!("the command was allowed"),
    }
}

#[test]
fn zero_token_request_is_blocked() {
    match WingetWrapper::prepare(&[]) {
        Decision::Blocked(done) => {
            assert_eq!(done.audit.action, AuditAction::Blocked);
            assert_eq!(done.audit.details, "");
            assert_eq!(done.result.code, Some(-1));
        }
        Decision::Run(_, _) => panic!("the command was allowed"),
    }
}

#[test]
fn allowed_command_is_run_through_the_shell() {
    match WingetWrapper::prepare(&["search", "fire fox"]) {
        Decision::Run(launch, session) => {
            assert_eq!(launch.program, "pwsh");
            assert_eq!(
                launch.arguments,
                vec![
                    "-NoProfile".to_string(),
                    "-NonInteractive".to_string(),
                    "-Command".to_string(),
                    "$OutputEncoding = [Console]::InputEncoding = [Console]::OutputEncoding = New-Object System.Text.UTF8Encoding; winget search fire fox".to_string(),
                ]
            );
            assert_eq!(launch.creation_flags, 0x0800_0000);
            assert_eq!(session.command_line, "winget search fire fox");
            assert_eq!(session.step, Step::ReadOutput);
            assert_eq!(session.stdout, "");
            assert_eq!(session.stderr, "");
        }
        Decision::Blocked(_) => panic!("the command was refused"),
    }
}

#[test]
fn install_uninstall_and_targeted_upgrades_stream() {
    for args in [
        &INSTALL[..],
        &["uninstall", "--id", "Foo.App"][..],
        &["upgrade", "--id", "Foo.App"][..],
        &["upgrade", "--all"][..],
    ] {
        let session = started(args);
        assert!(session.streamable);
        assert!(!session.listing);
        assert!(!session.upgrade);
    }
}

#[test]
fn list_search_and_bare_upgrade_are_listings() {
    for args in [&["list"][..], &["search", "foo"][..], &["upgrade"][..], &["upgrade", "--include-unknown"][..]] {
        let session = started(args);
        assert!(!session.streamable);
        assert!(session.listing);
        assert_eq!(session.upgrade, args[0] == "upgrade");
    }
}

#[test]
fn other_verbs_neither_stream_nor_list() {
    for args in [
        &["show", "--id", "Foo.App"][..],
        &["pin", "list"][..],
        &["source", "list"][..],
        &["export", "-o", "a.json"][..],
        &["import", "-i", "a.json"][..],
    ] {
        let session = started(args);
        assert!(!session.streamable);
        assert!(!session.listing);
        assert!(!session.upgrade);
    }
}

#[test]
fn the_verb_decides_the_class_not_a_later_token() {
    let session = started(&["search", "install"]);
    assert!(!session.streamable);
    assert!(session.listing);
    let session = started(&["list", "upgrade", "--all"]);
    assert!(!session.streamable);
    assert!(session.listing);
    assert!(!session.upgrade);
}

#[test]
fn session_reads_output_then_error_then_waits() {
    let mut session = started(&INSTALL);
    assert_eq!(session.next_step(), Step::ReadOutput);
    assert_eq!(session.line("Downloading"), Some(event(Channel::Output, "Downloading")));
    assert_eq!(session.line(""), Some(event(Channel::Output, "")));
    assert_eq!(session.stdout, "Downloading\n\n");
    session.end_stream();
    assert_eq!(session.next_step(), Step::ReadError);
    assert_eq!(session.line("warning"), Some(event(Channel::Error, "warning")));
    assert_eq!(session.stderr, "warning\n");
    assert_eq!(session.stdout, "Downloading\n\n");
    session.end_stream();
    assert_eq!(session.next_step(), Step::Wait);
    assert_eq!(session.line("late"), None);
    assert_eq!(session.stdout, "Downloading\n\n");
    assert_eq!(session.stderr, "warning\n");
    session.end_stream();
    assert_eq!(session.next_step(), Step::Wait);
}

#[test]
fn listing_session_keeps_lines_without_events() {
    let mut session = started(&["list"]);
    assert_eq!(session.line("Name  Id  Version"), None);
    session.end_stream();
    assert_eq!(session.line("oops"), None);
    assert_eq!(session.stdout, "Name  Id  Version\n");
    assert_eq!(session.stderr, "oops\n");
}

#[test]
fn session_lines_takes_a_whole_stream() {
    let mut session = started(&["uninstall", "--id", "Foo.App"]);
    let mut events = vec![event(Channel::Error, "earlier")];
    session.lines(&vec!["a".to_string(), "b".to_string()], &mut events);
    assert_eq!(session.stdout, "a\nb\n");
    assert_eq!(
        events,
        vec![event(Channel::Error, "earlier"), event(Channel::Output, "a"), event(Channel::Output, "b")]
    );
}

#[test]
fn spawn_failure_is_reported_with_the_system_text() {
    let session = started(&["list"]);
    let done = session.spawn_failed("program not found");
    assert_eq!(
        done.result,
        WingetCommandResult {
            success: false,
            output: None,
            error: Some("program not found".to_string()),
            code: Some(-2),
        }
    );
    assert_eq!(done.audit.action, AuditAction::Error);
    assert_eq!(done.audit.details, "winget list");
    assert_eq!(done.audit.result, "program not found");
}

#[test]
fn exit_of_a_failed_command_keeps_both_texts() {
    let mut session = started(&["list"]);
    session.line("partial");
    session.end_stream();
    session.line("bad thing");
    session.end_stream();
    let done = session.exited(Some(-1978335212));
    assert_eq!(
        done.result,
        WingetCommandResult {
            success: false,
            output: Some("partial\n".to_string()),
            error: Some("bad thing\n".to_string()),
            code: Some(-1978335212),
        }
    );
    assert_eq!(done.audit.action, AuditAction::Execute);
    assert_eq!(done.audit.details, "winget list");
    assert_eq!(done.audit.result, "FAILURE");
}

#[test]
fn exit_without_a_code_is_a_failure_reported_as_zero() {
    let done = started(&["pin", "list"]).exited(None);
    assert_eq!(done.result.code, Some(0));
    assert!(!done.result.success);
    assert_eq!(done.result.error, Some(String::new()));
    assert_eq!(done.audit.result, "FAILURE");
}

#[test]
fn only_exit_code_zero_is_a_success() {
    for code in [1, 5, -1, i32::MAX, i32::MIN] {
        let done = started(&["pin", "list"]).exited(Some(code));
        assert!(!done.result.success);
        assert_eq!(done.result.code, Some(code));
        assert_eq!(done.audit.result, "FAILURE");
    }
    let done = started(&["pin", "list"]).exited(Some(0));
    assert!(done.result.success);
    assert_eq!(done.result.code, Some(0));
    assert_eq!(done.result.error, None);
    assert_eq!(done.audit.result, "SUCCESS");
}

#[test]
fn successful_command_has_no_error_text() {
    let mut session = started(&["show", "--id", "Foo.App"]);
    session.line("Found Foo");
    session.end_stream();
    session.line("a warning");
    let done = session.exited(Some(0));
    assert_eq!(
        done.result,
        WingetCommandResult {
            success: true,
            output: Some("Found Foo\n".to_string()),
            error: None,
            code: Some(0),
        }
    );
    assert_eq!(done.audit.result, "SUCCESS");
}

#[test]
fn run_blocked_command_audits_and_publishes_nothing() {
    let mut h = host();
    let result = WingetWrapper::run_command(&mut h, vec!["rm", "-rf", "/"], &ran(&["x"], &["y"], Some(0)));
    assert_eq!(
        result,
        WingetCommandResult {
            success: false,
            output: None,
            error: Some("Command blocked by security policy".to_string()),
            code: Some(-1),
        }
    );
    assert!(h.events.is_empty());
    assert_eq!(h.audit.len(), 1);
    let entry = h.audit.get(0).unwrap();
    assert_eq!(entry.action, AuditAction::Blocked);
    assert_eq!(entry.details, "rm -rf /");
    assert_eq!(entry.result, "Security Violations: Command not allowed");
}

#[test]
fn run_blocked_command_does_not_depend_on_the_execution() {
    let mut h = host();
    let a = WingetWrapper::run_command(&mut h, vec!["install", "Foo"], &ran(&["x"], &[], Some(0)));
    let b = WingetWrapper::run_command(&mut h, vec!["install", "Foo"], &Execution::SpawnFailed("e".to_string()));
    assert_eq!(a, b);
    assert!(h.events.is_empty());
}

#[test]
fn run_zero_token_request_is_rejected() {
    let mut h = host();
    let result = WingetWrapper::run_command(&mut h, vec![], &ran(&[], &[], Some(0)));
    assert!(!result.success);
    assert_eq!(result.code, Some(-1));
    assert_eq!(h.audit.get(0).unwrap().action, AuditAction::Blocked);
}

#[test]
fn run_spawn_failure_is_audited_as_error() {
    let mut h = host();
    let result =
        WingetWrapper::run_command(&mut h, vec!["list"], &Execution::SpawnFailed("access denied".to_string()));
    assert_eq!(
        result,
        WingetCommandResult {
            success: false,
            output: None,
            error: Some("access denied".to_string()),
            code: Some(-2),
        }
    );
    assert!(h.events.is_empty());
    assert_eq!(h.audit.len(), 1);
    let entry = h.audit.get(0).unwrap();
    assert_eq!(entry.action, AuditAction::Error);
    assert_eq!(entry.details, "winget list");
    assert_eq!(entry.result, "access denied");
}

#[test]
fn run_install_streams_every_line_in_order() {
    let mut h = host();
    let result = WingetWrapper::run_command(
        &mut h,
        INSTALL.to_vec(),
        &ran(&["Found Foo", "Downloading", "", "Installed"], &["note 1", "note 2"], Some(0)),
    );
    assert_eq!(
        h.events,
        vec![
            event(Channel::Output, "Found Foo"),
            event(Channel::Output, "Downloading"),
            event(Channel::Output, ""),
            event(Channel::Output, "Installed"),
            event(Channel::Error, "note 1"),
            event(Channel::Error, "note 2"),
        ]
    );
    assert_eq!(
        result,
        WingetCommandResult {
            success: true,
            output: Some("Found Foo\nDownloading\n\nInstalled\n".to_string()),
            error: None,
            code: Some(0),
        }
    );
    let entry = h.audit.get(0).unwrap();
    assert_eq!(entry.action, AuditAction::Execute);
    assert_eq!(
        entry.details,
        "winget install --id Foo.App --accept-source-agreements --accept-package-agreements"
    );
    assert_eq!(entry.result, "SUCCESS");
}

#[test]
fn run_failed_install_reports_stderr_and_the_exit_code() {
    let mut h = host();
    let result = WingetWrapper::run_command(
        &mut h,
        INSTALL.to_vec(),
        &ran(&["Found Foo"], &["hash mismatch"], Some(3)),
    );
    assert_eq!(
        result,
        WingetCommandResult {
            success: false,
            output: Some("Found Foo\n".to_string()),
            error: Some("hash mismatch\n".to_string()),
            code: Some(3),
        }
    );
    assert_eq!(h.events, vec![event(Channel::Output, "Found Foo"), event(Channel::Error, "hash mismatch")]);
    assert_eq!(h.audit.get(0).unwrap().result, "FAILURE");
}

#[test]
fn run_listing_replaces_the_output_with_json() {
    let mut h = host();
    let result = WingetWrapper::run_command(
        &mut h,
        vec!["list"],
        &ran(&["Name  Id  Version  Available", "-----", "Foo   F.A 1.0      2.0", "A \"b\"  X\\Y  1.2.3"], &[], Some(0)),
    );
    assert_eq!(
        result.output.as_deref(),
        Some("[{\"Id\":\"F.A\",\"Name\":\"Foo\",\"Version\":\"1.0\",\"Source\":\"winget\",\"Available\":null},{\"Id\":\"X\\\\Y\",\"Name\":\"A \\\"b\\\"\",\"Version\":\"1.2.3\",\"Source\":\"winget\",\"Available\":null}]")
    );
    assert!(result.success);
    assert_eq!(result.error, None);
    assert!(h.events.is_empty());
}

#[test]
fn run_upgrade_listing_carries_the_available_version() {
    let mut h = host();
    let result = WingetWrapper::run_command(
        &mut h,
        vec!["upgrade"],
        &ran(&["Name  Id  Version  Available", "-----", "Foo   F.A 1.0      2.0"], &[], Some(0)),
    );
    assert_eq!(
        result.output.as_deref(),
        Some("[{\"Id\":\"F.A\",\"Name\":\"Foo\",\"Version\":\"1.0\",\"Source\":\"winget\",\"Available\":\"2.0\"}]")
    );
}

#[test]
fn run_listing_without_rows_gives_an_empty_array() {
    let mut h = host();
    let result =
        WingetWrapper::run_command(&mut h, vec!["search", "nothing"], &ran(&["No package found."], &[], Some(0)));
    assert_eq!(result.output.as_deref(), Some("[]"));
}

#[test]
fn run_failed_listing_keeps_the_raw_text() {
    let mut h = host();
    let result = WingetWrapper::run_command(
        &mut h,
        vec!["list"],
        &ran(&["Name  Id  Version", "-----", "Foo   F.A 1.0"], &["boom"], Some(1)),
    );
    assert_eq!(result.output.as_deref(), Some("Name  Id  Version\n-----\nFoo   F.A 1.0\n"));
    assert_eq!(result.error.as_deref(), Some("boom\n"));
    assert_eq!(result.code, Some(1));
}

#[test]
fn run_plain_command_returns_the_raw_text() {
    let mut h = host();
    let result = WingetWrapper::run_command(
        &mut h,
        vec!["show", "--id", "Foo.App"],
        &ran(&["Found Foo [Foo.App]", "Version: 1.0"], &["ignored"], Some(0)),
    );
    assert_eq!(
        result,
        WingetCommandResult {
            success: true,
            output: Some("Found Foo [Foo.App]\nVersion: 1.0\n".to_string()),
            error: None,
            code: Some(0),
        }
    );
    assert!(h.events.is_empty());
}

#[test]
fn run_without_an_exit_code_is_a_failure() {
    let mut h = host();
    let result = WingetWrapper::run_command(&mut h, vec!["list"], &ran(&["Name  Id"], &["killed"], None));
    assert_eq!(
        result,
        WingetCommandResult {
            success: false,
            output: Some("Name  Id\n".to_string()),
            error: Some("killed\n".to_string()),
            code: Some(0),
        }
    );
    assert_eq!(h.audit.get(0).unwrap().result, "FAILURE");
}

#[test]
fn audit_entries_of_commands_are_stamped() {
    let mut h = host();
    WingetWrapper::run_command(&mut h, vec!["bogus"], &ran(&[], &[], Some(0)));
    WingetWrapper::run_command(&mut h, vec!["list"], &ran(&[], &[], Some(0)));
    WingetWrapper::run_command(&mut h, vec!["list"], &Execution::SpawnFailed("gone".to_string()));
    for i in 0..3 {
        let stamp = &h.audit.get(i).unwrap().timestamp;
        assert!(stamp.chars().count() >= 19);
        assert!(stamp.chars().all(|c| c.is_ascii_digit() || "-+ :".contains(c)));
    }
}

#[test]
fn audit_line_of_a_command_with_line_breaks_is_one_line() {
    let mut h = host();
    WingetWrapper::run_command(
        &mut h,
        vec!["search", "x\n[2025-01-01 00:00:00] ACTION: EXECUTE | DETAILS: winget list | RESULT: SUCCESS"],
        &Execution::SpawnFailed("no\r\nshell".to_string()),
    );
    let line = h.audit.get(0).unwrap().line();
    assert_eq!(line.matches('\n').count(), 1);
    assert_eq!(line.matches('\r').count(), 0);
    assert!(line.ends_with("RESULT: no\\r\\nshell\n"));
    assert!(line.contains("DETAILS: winget search x\\n[2025-01-01 00:00:00] ACTION: EXECUTE"));
    assert_eq!(line.lines().count(), 1);
}

#[test]
fn two_commands_leave_two_entries_in_order() {
    let mut h = host();
    WingetWrapper::run_command(&mut h, vec!["list"], &ran(&[], &[], Some(0)));
    let first = h.audit.get(0).unwrap().clone();
    WingetWrapper::run_command(&mut h, vec!["bogus"], &ran(&[], &[], Some(0)));
    assert_eq!(h.audit.len(), 2);
    assert_eq!(h.audit.get(0), Some(&first));
    assert_eq!(h.audit.get(0).unwrap().action, AuditAction::Execute);
    assert_eq!(h.audit.get(0).unwrap().details, "winget list");
    assert_eq!(h.audit.get(1).unwrap().action, AuditAction::Blocked);
    assert_eq!(h.audit.get(1).unwrap().details, "bogus");
    WingetWrapper::run_command(&mut h, vec!["list"], &Execution::SpawnFailed("gone".to_string()));
    assert_eq!(h.audit.len(), 3);
    assert_eq!(h.audit.get(0), Some(&first));
    assert_eq!(h.audit.get(2).unwrap().action, AuditAction::Error);
}

#[test]
fn events_of_later_commands_follow_earlier_ones() {
    let mut h = host();
    WingetWrapper::run_command(&mut h, INSTALL.to_vec(), &ran(&["one"], &[], Some(0)));
    WingetWrapper::run_command(&mut h, vec!["list"], &ran(&["not streamed"], &[], Some(0)));
    WingetWrapper::run_command(&mut h, vec!["upgrade", "--all"], &ran(&["two"], &["three"], Some(0)));
    assert_eq!(
        h.events,
        vec![event(Channel::Output, "one"), event(Channel::Output, "two"), event(Channel::Error, "three")]
    );
}

#[test]
fn channel_names() {
    assert_eq!(Channel::Output.as_str(), "winget-output");
    assert_eq!(Channel::Error.as_str(), "winget-error");
}

#[test]
fn package_members_are_in_wire_order() {
    let p = WingetPackage {
        id: "F.A".to_string(),
        name: "Foo".to_string(),
        version: "1.0".to_string(),
        source: None,
        available_version: Some("2.0".to_string()),
    };
    assert_eq!(
        package_members(&p),
        vec![
            ("Id".to_string(), Some("F.A".to_string())),
            ("Name".to_string(), Some("Foo".to_string())),
            ("Version".to_string(), Some("1.0".to_string())),
            ("Source".to_string(), None),
            ("Available".to_string(), Some("2.0".to_string())),
        ]
    );
}

#[test]
fn listing_json_writes_an_array_of_objects() {
    let p = WingetPackage {
        id: "F.A".to_string(),
        name: "Caf\u{e9}\n".to_string(),
        version: "1.0".to_string(),
        source: None,
        available_version: Some("2.0".to_string()),
    };
    assert_eq!(
        listing_json(&vec![p]).as_deref(),
        Some("[{\"Id\":\"F.A\",\"Name\":\"Caf\u{e9}\\n\",\"Version\":\"1.0\",\"Source\":null,\"Available\":\"2.0\"}]")
    );
    assert_eq!(listing_json(&vec![]).as_deref(), Some("[]"));
}

#[test]
fn choose_output_prefers_the_json_text() {
    assert_eq!(choose_output("raw".to_string(), Some("[]".to_string())), "[]");
    assert_eq!(choose_output("raw".to_string(), None), "raw");
}
