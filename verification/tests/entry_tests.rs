use flatpick::entry::{entry_displays, format_row_with_id, line_identifier, resolve_app_id};
use flatpick::pipeline::inventory_entries;
use flatpick::text::trim_whitespace;

#[test]
fn entry_pairs_row_with_raw_line_identifier() {
    let e = format_row_with_id("Calculator org.gnome.Calculator 1.0 stable flathub system");
    let expected = format!(
        "{:<20} {:<40} {:<10} {:<10} {:<20} {:<15}",
        "Calculator", "org.gnome.Calculator", "1.0", "stable", "flathub", "system"
    );
    assert_eq!(e.display, expected);
    assert_eq!(e.app_id, "org.gnome.Calculator");
}

#[test]
fn entry_keeps_identifier_untruncated() {
    // A 40-character identifier is shown truncated in the display row
    // but carried whole in the entry.
    let id = "org.example.averyveryverylongname.App400";
    assert_eq!(id.len(), 40);
    let line = format!("Name {} 1.0 stable flathub system", id);
    let e = format_row_with_id(&line);
    assert!(!e.display.contains(id));
    assert_eq!(e.app_id, id);
}

#[test]
fn short_line_entry_has_empty_identifier() {
    let e = format_row_with_id("a b c d e");
    assert_eq!(e.display, "a b c d e");
    assert_eq!(e.app_id, "");
}

#[test]
fn line_identifier_is_fifth_from_last_token() {
    assert_eq!(
        line_identifier("My Cool App org.example.Cool 2.1 stable flathub user"),
        "org.example.Cool"
    );
    assert_eq!(line_identifier("too few tokens"), "");
}

#[test]
fn resolve_finds_the_chosen_entry() {
    let text = "A org.a 1 stable flathub system\nB org.b 2 stable flathub user\n";
    let entries = inventory_entries(text);
    assert_eq!(entries.len(), 2);
    let chosen = trim_whitespace(&entries[1].display);
    assert_eq!(resolve_app_id(&entries, &chosen), Some("org.b".to_string()));
}

#[test]
fn resolve_returns_none_for_an_unknown_row() {
    let entries = inventory_entries("A org.a 1 stable flathub system\n");
    assert_eq!(resolve_app_id(&entries, "no such row"), None);
    assert_eq!(resolve_app_id(&entries, ""), None);
}

#[test]
fn resolve_takes_the_first_of_equal_rows() {
    let text = "A org.first 1 stable flathub system\nA org.first 1 stable flathub system\n";
    let entries = inventory_entries(text);
    assert_eq!(entries.len(), 2);
    let chosen = trim_whitespace(&entries[1].display);
    assert_eq!(resolve_app_id(&entries, &chosen), Some("org.first".to_string()));
}

#[test]
fn entry_displays_lists_rows_in_order() {
    let text = "A org.a 1 stable flathub system\nB org.b 2 stable flathub user\n";
    let entries = inventory_entries(text);
    let displays = entry_displays(&entries);
    assert_eq!(displays.len(), 2);
    assert_eq!(displays[0], entries[0].display);
    assert_eq!(displays[1], entries[1].display);
}
