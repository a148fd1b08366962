use winget_gate::audit::{escape_breaks, log_audit_event, AuditAction, AuditEntry, AuditLog};

fn entry(action: AuditAction, details: &str, result: &str) -> AuditEntry {
    AuditEntry {
        timestamp: "2025-01-02 03:04:05".to_string(),
        action,
        details: details.to_string(),
        result: result.to_string(),
    }
}

#[test]
fn audit_line_follows_the_template() {
    assert_eq!(
        entry(AuditAction::Execute, "winget list", "SUCCESS").line(),
        "[2025-01-02 03:04:05] ACTION: EXECUTE | DETAILS: winget list | RESULT: SUCCESS\n"
    );
    assert_eq!(
        entry(AuditAction::Blocked, "format c:", "Security Violations: Command not allowed").line(),
        "[2025-01-02 03:04:05] ACTION: BLOCKED | DETAILS: format c: | RESULT: Security Violations: Command not allowed\n"
    );
    assert_eq!(
        entry(AuditAction::Error, "", "").line(),
        "[2025-01-02 03:04:05] ACTION: ERROR | DETAILS:  | RESULT: \n"
    );
}

#[test]
fn action_words() {
    assert_eq!(AuditAction::Execute.as_str(), "EXECUTE");
    assert_eq!(AuditAction::Blocked.as_str(), "BLOCKED");
    assert_eq!(AuditAction::Error.as_str(), "ERROR");
}

#[test]
fn stamped_entry_keeps_what_it_was_given() {
    let e = AuditEntry::now(AuditAction::Error, "winget list", "no such file");
    assert_eq!(e.action, AuditAction::Error);
    assert_eq!(e.details, "winget list");
    assert_eq!(e.result, "no such file");
}

#[test]
fn audit_line_escapes_line_breaks() {
    let line = entry(AuditAction::Execute, "winget search a\nb", "one\r\ntwo\n").line();
    assert_eq!(
        line,
        "[2025-01-02 03:04:05] ACTION: EXECUTE | DETAILS: winget search a\\nb | RESULT: one\\r\\ntwo\\n\n"
    );
    assert_eq!(line.matches('\n').count(), 1);
    assert!(line.ends_with('\n'));
}

#[test]
fn audit_line_cannot_be_made_to_look_like_two_entries() {
    let forged = "x\n[2025-01-02 03:04:06] ACTION: EXECUTE | DETAILS: winget list | RESULT: SUCCESS";
    let line = entry(AuditAction::Blocked, forged, "r").line();
    assert_eq!(line.lines().count(), 1);
    assert_eq!(line.matches('\n').count(), 1);
    assert_eq!(line.matches('\r').count(), 0);
}

#[test]
fn audit_line_escapes_a_broken_timestamp_too() {
    let e = AuditEntry {
        timestamp: "2025\n01".to_string(),
        action: AuditAction::Error,
        details: "d".to_string(),
        result: "r".to_string(),
    };
    assert_eq!(e.line(), "[2025\\n01] ACTION: ERROR | DETAILS: d | RESULT: r\n");
}

#[test]
fn audit_line_keeps_backslashes_and_other_text_as_they_are() {
    let line = entry(AuditAction::Execute, "winget export -o C:\\new\\apps.json", "\u{2028}\t").line();
    assert_eq!(
        line,
        "[2025-01-02 03:04:05] ACTION: EXECUTE | DETAILS: winget export -o C:\\new\\apps.json | RESULT: \u{2028}\t\n"
    );
}

#[test]
fn escape_breaks_rewrites_only_line_breaks() {
    assert_eq!(escape_breaks(""), "");
    assert_eq!(escape_breaks("plain text"), "plain text");
    assert_eq!(escape_breaks("\n"), "\\n");
    assert_eq!(escape_breaks("\r"), "\\r");
    assert_eq!(escape_breaks("a\r\nb\n\nc"), "a\\r\\nb\\n\\nc");
    assert_eq!(escape_breaks("caf\u{e9}\\n"), "caf\u{e9}\\n");
}

#[test]
fn stamp_is_a_local_time_to_the_second() {
    let e = AuditEntry::now(AuditAction::Execute, "d", "r");
    let stamp: Vec<char> = e.timestamp.chars().collect();
    assert_eq!(stamp.len(), 19);
    for (i, c) in stamp.iter().enumerate() {
        match i {
            4 | 7 => assert_eq!(*c, '-'),
            10 => assert_eq!(*c, ' '),
            13 | 16 => assert_eq!(*c, ':'),
            _ => assert!(c.is_ascii_digit()),
        }
    }
}

#[test]
fn log_starts_empty() {
    let log = AuditLog::new();
    assert_eq!(log.len(), 0);
    assert!(log.get(0).is_none());
}

#[test]
fn entries_accumulate_in_order() {
    let mut log = AuditLog::new();
    log_audit_event(&mut log, AuditAction::Blocked, "first", "one");
    assert_eq!(log.len(), 1);
    let kept = log.get(0).unwrap().clone();
    log_audit_event(&mut log, AuditAction::Execute, "second", "two");
    assert_eq!(log.len(), 2);
    assert_eq!(log.get(0), Some(&kept));
    assert_eq!(log.get(0).unwrap().details, "first");
    assert_eq!(log.get(1).unwrap().action, AuditAction::Execute);
    assert_eq!(log.get(1).unwrap().details, "second");
    assert_eq!(log.get(1).unwrap().result, "two");
    assert!(log.get(2).is_none());
}

#[test]
fn append_keeps_the_entry_as_given() {
    let mut log = AuditLog::new();
    let e = entry(AuditAction::Execute, "winget list", "SUCCESS");
    log.append(e.clone());
    assert_eq!(log.get(0), Some(&e));
}
