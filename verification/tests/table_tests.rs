use winget_gate::models::WingetPackage;
use winget_gate::table::{column_widths, render_listing};
use winget_gate::winget::WingetWrapper;

fn row(name: &str, id: &str, version: &str, available: Option<&str>) -> WingetPackage {
    WingetPackage {
        id: id.to_string(),
        name: name.to_string(),
        version: version.to_string(),
        source: Some("winget".to_string()),
        available_version: available.map(|a| a.to_string()),
    }
}

#[test]
fn renders_an_upgrade_listing() {
    let text = render_listing(&vec![row("Foo", "F.A", "1.0", Some("2.0"))], true);
    assert_eq!(
        text,
        format!("Name  Id   Version  Available\n{}\nFoo   F.A  1.0      2.0\n", "-".repeat(20))
    );
}

#[test]
fn renders_a_plain_listing() {
    let text = render_listing(
        &vec![row("Mozilla Firefox", "Mozilla.Firefox", "120.0", None), row("7-Zip", "7zip.7zip", "23.01", None)],
        false,
    );
    let expected = format!(
        "{:<17}{:<17}{:<9}Source\n{}\n{:<17}{:<17}{:<9}winget\n{:<17}{:<17}{:<9}winget\n",
        "Name",
        "Id",
        "Version",
        "-".repeat(43),
        "Mozilla Firefox",
        "Mozilla.Firefox",
        "120.0",
        "7-Zip",
        "7zip.7zip",
        "23.01"
    );
    assert_eq!(text, expected);
}

#[test]
fn renders_an_empty_listing_as_header_and_rule() {
    assert_eq!(
        render_listing(&vec![], false),
        format!("Name  Id  Version  Source\n{}\n", "-".repeat(19))
    );
    assert_eq!(
        render_listing(&vec![], true),
        format!("Name  Id  Version  Available\n{}\n", "-".repeat(19))
    );
}

#[test]
fn column_widths_cover_labels_and_cells() {
    assert_eq!(column_widths(&vec![]), (4, 2, 7));
    assert_eq!(column_widths(&vec![row("Caf\u{e9} au lait", "C", "1.0.0.0.0", None)]), (12, 2, 9));
}

#[test]
fn parsing_a_rendered_listing_gives_the_records_back() {
    let records = vec![
        row("Mozilla Firefox", "Mozilla.Firefox", "120.0", Some("121.0")),
        row("7-Zip", "7zip.7zip", "23.01", None),
        row("Caf\u{e9}", "C.A", "1", Some("2")),
    ];
    let text = render_listing(&records, true);
    assert_eq!(WingetWrapper::parse_winget_output(&text, true), records);
}

#[test]
fn parsing_is_idempotent() {
    let printed = "Name              Id               Version  Source\n---\nMozilla Firefox   Mozilla.Firefox  120.0    winget\n7-Zip             7zip.7zip        23.01    winget\n3 packages\n";
    let first = WingetWrapper::parse_winget_output(printed, false);
    assert_eq!(first.len(), 2);
    let again = WingetWrapper::parse_winget_output(&render_listing(&first, false), false);
    assert_eq!(again, first);
}

#[test]
fn parsing_is_idempotent_for_upgrades() {
    let printed = "Name  Id  Version  Available\n-----\nFoo   F.A 1.0      2.0\nBar   B.R 2.0\n";
    let first = WingetWrapper::parse_winget_output(printed, true);
    assert_eq!(first.len(), 2);
    let again = WingetWrapper::parse_winget_output(&render_listing(&first, true), true);
    assert_eq!(again, first);
}
