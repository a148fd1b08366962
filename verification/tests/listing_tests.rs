use winget_gate::listing::{fallback_package, trimmed};
use winget_gate::models::WingetPackage;
use winget_gate::winget::WingetWrapper;

fn package(name: &str, id: &str, version: &str, available: Option<&str>) -> WingetPackage {
    WingetPackage {
        id: id.to_string(),
        name: name.to_string(),
        version: version.to_string(),
        source: Some("winget".to_string()),
        available_version: available.map(|a| a.to_string()),
    }
}

#[test]
fn parses_a_padded_upgrade_row() {
    let text = "Name  Id  Version  Available\n----------------------------\nFoo   F.A 1.0      2.0\n";
    let rows = WingetWrapper::parse_winget_output(text, true);
    assert_eq!(rows, vec![package("Foo", "F.A", "1.0", Some("2.0"))]);
}

#[test]
fn padded_cells_are_read_back_exactly() {
    let header = "Name  Id  Version  Available";
    let line = format!("{:<6}{:<4}{:<9}{}", "A b", "X.Y", "10.2.1-rc", "11.0");
    let text = format!("{}\n{}\n{}", header, "-".repeat(19), line);
    let rows = WingetWrapper::parse_winget_output(&text, true);
    assert_eq!(rows, vec![package("A b", "X.Y", "10.2.1-rc", Some("11.0"))]);
}

#[test]
fn regex_fallback_rescues_a_row_without_header() {
    let rows = WingetWrapper::parse_winget_output("---\nFoo App  Foo.App  1.2.3", false);
    assert_eq!(rows, vec![package("Foo App", "Foo.App", "1.2.3", None)]);
}

#[test]
fn regex_fallback_rescues_a_row_shorter_than_the_columns() {
    let text = "Name      Id        Version\n----\nFoo  Bar.Baz  1.0\n";
    let rows = WingetWrapper::parse_winget_output(text, false);
    assert_eq!(rows, vec![package("Foo", "Bar.Baz", "1.0", None)]);
}

#[test]
fn regex_fallback_never_sets_the_available_version() {
    let rows = WingetWrapper::parse_winget_output("---\nFoo App  Foo.App  1.2.3  2.0.0", true);
    assert_eq!(rows, vec![package("Foo App", "Foo.App", "1.2.3", None)]);
}

#[test]
fn regex_fallback_drops_header_labels() {
    assert!(WingetWrapper::parse_winget_output("---\nName  Idx  1.0", false).is_empty());
    assert!(WingetWrapper::parse_winget_output("---\nFoo  Id  1.0", false).is_empty());
    assert!(WingetWrapper::parse_winget_output("---\nName  Id  Version", false).is_empty());
}

#[test]
fn unreadable_lines_are_dropped() {
    let header = format!("{:<18}{:<17}{:<9}{}", "Name", "Id", "Version", "Source");
    let row = format!("{:<18}{:<17}{:<9}{}", "Foo", "F.A", "1.0", "winget");
    let text = format!("{}\n-----\n2 upgrades available.\n{}\n", header, row);
    let rows = WingetWrapper::parse_winget_output(&text, false);
    assert_eq!(rows, vec![package("Foo", "F.A", "1.0", None)]);
}

#[test]
fn repeated_header_is_not_a_record() {
    let text = "Name  Id  Version\n-----\nFoo   F.A 1.0\nName  Id  Version\nBar   B.R 2.0\n";
    let rows = WingetWrapper::parse_winget_output(text, false);
    assert_eq!(rows, vec![package("Foo", "F.A", "1.0", None), package("Bar", "B.R", "2.0", None)]);
}

#[test]
fn plain_listing_ignores_the_available_column() {
    let text = "Name  Id  Version  Available\n-----\nFoo   F.A 1.0      2.0\n";
    let rows = WingetWrapper::parse_winget_output(text, false);
    assert_eq!(rows, vec![package("Foo", "F.A", "1.0", None)]);
}

#[test]
fn upgrade_row_without_a_value_has_no_available_version() {
    let text = "Name  Id  Version  Available\n-----\nFoo   F.A 1.0\nBar   B.R 2.0      \n";
    let rows = WingetWrapper::parse_winget_output(text, true);
    assert_eq!(rows, vec![package("Foo", "F.A", "1.0", None), package("Bar", "B.R", "2.0", None)]);
}

#[test]
fn available_version_is_the_first_token_after_the_column() {
    let text = "Name  Id  Version  Available  Source\n-----\nFoo   F.A 1.0      2.0        winget\n";
    let rows = WingetWrapper::parse_winget_output(text, true);
    assert_eq!(rows, vec![package("Foo", "F.A", "1.0", Some("2.0"))]);
}

#[test]
fn source_column_ends_the_version() {
    let header = format!("{:<18}{:<17}{:<9}{}", "Name", "Id", "Version", "Source");
    let first = format!("{:<18}{:<17}{:<9}{}", "Mozilla Firefox", "Mozilla.Firefox", "120.0", "winget");
    let second = format!("{:<18}{:<17}{:<9}{}", "7-Zip", "7zip.7zip", "23.01", "winget");
    let text = format!("{}\n{}\n{}\n{}\n", header, "-".repeat(50), first, second);
    let rows = WingetWrapper::parse_winget_output(&text, false);
    assert_eq!(
        rows,
        vec![
            package("Mozilla Firefox", "Mozilla.Firefox", "120.0", None),
            package("7-Zip", "7zip.7zip", "23.01", None),
        ]
    );
}

#[test]
fn progress_noise_is_skipped() {
    let text = "   \\ \n  \u{2588}\u{2588}\u{2588}\u{2592}\u{2592}  50%\n\u{2592} 1 MB\nName  Id  Version\n-----\n\\\nFoo   F.A 1.0\nx \u{2588}\u{2588} y  a  b\n";
    let rows = WingetWrapper::parse_winget_output(text, false);
    assert_eq!(rows, vec![package("Foo", "F.A", "1.0", None)]);
}

#[test]
fn a_single_block_glyph_is_not_noise() {
    let text = "Name  Id  Version\n-----\nF\u{2588}o   F.A 1.0\n";
    let rows = WingetWrapper::parse_winget_output(text, false);
    assert_eq!(rows, vec![package("F\u{2588}o", "F.A", "1.0", None)]);
}

#[test]
fn lines_before_the_separator_are_skipped() {
    let text = "Foo   F.A 1.0\nName  Id  Version\nBar   B.R 2.0\n-----\nBaz   B.Z 3.0\n";
    let rows = WingetWrapper::parse_winget_output(text, false);
    assert_eq!(rows, vec![package("Baz", "B.Z", "3.0", None)]);
}

#[test]
fn blank_lines_are_skipped() {
    let text = "\n\nName  Id  Version\n\n-----\n   \nFoo   F.A 1.0\n\n";
    let rows = WingetWrapper::parse_winget_output(text, false);
    assert_eq!(rows, vec![package("Foo", "F.A", "1.0", None)]);
}

#[test]
fn carriage_returns_end_lines_too() {
    let text = "Name  Id  Version\r\n-----\r\nFoo   F.A 1.0\r\nBar   B.R 2.0\r\n";
    let rows = WingetWrapper::parse_winget_output(text, false);
    assert_eq!(rows, vec![package("Foo", "F.A", "1.0", None), package("Bar", "B.R", "2.0", None)]);
}

#[test]
fn offsets_count_characters() {
    let text = "Name    Id    Version\n-----\nCaf\u{e9}    C.A   1.0\n\u{65e5}\u{672c}\u{8a9e}     J.P   2.0\n";
    let rows = WingetWrapper::parse_winget_output(text, false);
    assert_eq!(
        rows,
        vec![package("Caf\u{e9}", "C.A", "1.0", None), package("\u{65e5}\u{672c}\u{8a9e}", "J.P", "2.0", None)]
    );
}

#[test]
fn header_offsets_are_taken_from_the_trimmed_header() {
    let text = "   Name  Id  Version\n-----\nFoo   F.A 1.0\n";
    let rows = WingetWrapper::parse_winget_output(text, false);
    assert_eq!(rows, vec![package("Foo", "F.A", "1.0", None)]);
}

#[test]
fn only_the_first_header_fixes_the_offsets() {
    let text = "Name  Id  Version\n-----\nName      Id      Version\nFoo   F.A 1.0\n";
    let rows = WingetWrapper::parse_winget_output(text, false);
    assert_eq!(rows, vec![package("Foo", "F.A", "1.0", None)]);
}

#[test]
fn duplicates_are_kept_in_order() {
    let text = "Name  Id  Version\n-----\nFoo   F.A 1.0\nFoo   F.A 1.0\n";
    let rows = WingetWrapper::parse_winget_output(text, false);
    assert_eq!(rows, vec![package("Foo", "F.A", "1.0", None), package("Foo", "F.A", "1.0", None)]);
}

#[test]
fn empty_text_has_no_records() {
    assert!(WingetWrapper::parse_winget_output("", false).is_empty());
    assert!(WingetWrapper::parse_winget_output("\n\n", true).is_empty());
    assert!(WingetWrapper::parse_winget_output("No installed package found.", false).is_empty());
}

#[test]
fn every_record_names_the_tool_as_its_source() {
    let text = "Name  Id  Version\n-----\nFoo   F.A 1.0\nFoo App  Foo.App  1.2.3\n";
    let rows = WingetWrapper::parse_winget_output(text, false);
    assert_eq!(rows.len(), 2);
    for row in rows.iter() {
        assert_eq!(row.source.as_deref(), Some("winget"));
    }
}

#[test]
fn fallback_package_reads_the_three_groups() {
    let groups = Some(vec![
        Some("Foo App  Foo.App  1.2.3".to_string()),
        Some("Foo App".to_string()),
        Some("Foo.App".to_string()),
        Some("1.2.3".to_string()),
    ]);
    assert_eq!(fallback_package(&groups), Some(package("Foo App", "Foo.App", "1.2.3", None)));
}

#[test]
fn fallback_package_trims_the_groups() {
    let groups = Some(vec![
        Some(String::new()),
        Some("  Foo ".to_string()),
        Some("F.A".to_string()),
        Some(" 1 ".to_string()),
    ]);
    assert_eq!(fallback_package(&groups), Some(package("Foo", "F.A", "1", None)));
}

#[test]
fn fallback_package_wants_a_match_with_all_groups() {
    assert_eq!(fallback_package(&None), None);
    assert_eq!(fallback_package(&Some(vec![])), None);
    let short = Some(vec![Some("a".to_string()), Some("b".to_string()), Some("c".to_string())]);
    assert_eq!(fallback_package(&short), None);
    let hole = Some(vec![Some("x".to_string()), Some("a".to_string()), None, Some("c".to_string())]);
    assert_eq!(fallback_package(&hole), None);
}

#[test]
fn fallback_package_drops_labels_and_empty_cells() {
    let full = |name: &str, id: &str| {
        Some(vec![
            Some(String::new()),
            Some(name.to_string()),
            Some(id.to_string()),
            Some("1.0".to_string()),
        ])
    };
    assert_eq!(fallback_package(&full("Name", "F.A")), None);
    assert_eq!(fallback_package(&full("Foo", "Id")), None);
    assert_eq!(fallback_package(&full("  ", "F.A")), None);
    assert_eq!(fallback_package(&full("Foo", "")), None);
    assert_eq!(fallback_package(&full("name", "id")), Some(package("name", "id", "1.0", None)));
}

#[test]
fn trimmed_strips_both_ends() {
    assert_eq!(trimmed("  a b \t"), "a b");
    assert_eq!(trimmed(""), "");
    assert_eq!(trimmed(" \r\n"), "");
}
