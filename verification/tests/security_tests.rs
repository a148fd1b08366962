use winget_gate::security::{has_flag, is_command_allowed, Verb};

#[test]
fn empty_request_is_rejected() {
    assert!(!is_command_allowed(&[]));
}

#[test]
fn verbs_without_requirements_are_allowed() {
    assert!(is_command_allowed(&["list"]));
    assert!(is_command_allowed(&["list", "--source", "winget"]));
    assert!(is_command_allowed(&["search", "firefox"]));
    assert!(is_command_allowed(&["upgrade"]));
    assert!(is_command_allowed(&["upgrade", "--id", "Foo.App"]));
    assert!(is_command_allowed(&["pin", "list"]));
    assert!(is_command_allowed(&["source", "update"]));
}

#[test]
fn install_needs_the_id_and_both_agreements() {
    assert!(is_command_allowed(&[
        "install",
        "--id",
        "Foo.App",
        "--accept-source-agreements",
        "--accept-package-agreements",
    ]));
    assert!(!is_command_allowed(&[
        "install",
        "Foo.App",
        "--accept-source-agreements",
        "--accept-package-agreements",
    ]));
    assert!(!is_command_allowed(&["install", "--id", "Foo.App", "--accept-package-agreements"]));
    assert!(!is_command_allowed(&["install", "--id", "Foo.App", "--accept-source-agreements"]));
    assert!(!is_command_allowed(&["install"]));
}

#[test]
fn uninstall_and_show_need_the_id() {
    assert!(is_command_allowed(&["uninstall", "--id", "Foo.App"]));
    assert!(!is_command_allowed(&["uninstall", "Foo.App"]));
    assert!(is_command_allowed(&["show", "--id", "Foo.App"]));
    assert!(!is_command_allowed(&["show"]));
}

#[test]
fn export_and_import_need_their_file_flag() {
    assert!(is_command_allowed(&["export", "-o", "apps.json"]));
    assert!(!is_command_allowed(&["export", "apps.json"]));
    assert!(!is_command_allowed(&["export", "-i", "apps.json"]));
    assert!(is_command_allowed(&["import", "-i", "apps.json"]));
    assert!(!is_command_allowed(&["import", "-o", "apps.json"]));
}

#[test]
fn verbs_outside_the_table_are_rejected() {
    assert!(!is_command_allowed(&["settings"]));
    assert!(!is_command_allowed(&["validate", "--id", "Foo.App"]));
    assert!(!is_command_allowed(&["--id", "list"]));
    assert!(!is_command_allowed(&[""]));
    assert!(!is_command_allowed(&["rm", "-rf", "/"]));
}

#[test]
fn verbs_are_compared_case_sensitively() {
    assert!(!is_command_allowed(&["List"]));
    assert!(!is_command_allowed(&["LIST"]));
    assert!(!is_command_allowed(&["list "]));
    assert!(!is_command_allowed(&["uninstall", "--ID", "Foo.App"]));
}

#[test]
fn flag_values_are_not_inspected() {
    assert!(is_command_allowed(&["export", "-o", "; rm -rf /"]));
    assert!(is_command_allowed(&["show", "--id"]));
}

#[test]
fn verb_parse_knows_the_ten_verbs() {
    assert_eq!(Verb::parse("list"), Some(Verb::List));
    assert_eq!(Verb::parse("search"), Some(Verb::Search));
    assert_eq!(Verb::parse("install"), Some(Verb::Install));
    assert_eq!(Verb::parse("uninstall"), Some(Verb::Uninstall));
    assert_eq!(Verb::parse("upgrade"), Some(Verb::Upgrade));
    assert_eq!(Verb::parse("pin"), Some(Verb::Pin));
    assert_eq!(Verb::parse("source"), Some(Verb::Source));
    assert_eq!(Verb::parse("export"), Some(Verb::Export));
    assert_eq!(Verb::parse("import"), Some(Verb::Import));
    assert_eq!(Verb::parse("show"), Some(Verb::Show));
    assert_eq!(Verb::parse("download"), None);
}

#[test]
fn has_flag_looks_at_every_token() {
    assert!(has_flag(&["a", "b", "--id"], "--id"));
    assert!(has_flag(&["--id"], "--id"));
    assert!(!has_flag(&["--idx", "-id"], "--id"));
    assert!(!has_flag(&[], "--id"));
}
