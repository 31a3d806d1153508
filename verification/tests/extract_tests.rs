use flatpick::entry::resolve_app_id;
use flatpick::extract::extract_app_id;
use flatpick::format::format_columns;
use flatpick::pipeline::inventory_entries;
use flatpick::text::trim_whitespace;

#[test]
fn identifier_is_second_token_of_a_row() {
    let row = format_columns("Calculator org.gnome.Calculator 1.0 stable flathub system");
    assert_eq!(extract_app_id(&row), "org.gnome.Calculator");
}

#[test]
fn rows_with_fewer_than_two_tokens_give_empty() {
    assert_eq!(extract_app_id(""), "");
    assert_eq!(extract_app_id("only"), "");
    assert_eq!(extract_app_id("   only   "), "");
    assert_eq!(extract_app_id("a b"), "b");
}

#[test]
fn round_trip_recovers_the_identifier() {
    // A six-token line: the fifth-from-last (second) token of the raw line
    // survives formatting and extraction unchanged.
    let line = "Files org.gnome.Nautilus 45.1 stable flathub system";
    let raw_id: &str = line.split_whitespace().nth(1).unwrap();
    let row = format_columns(line);
    assert_eq!(extract_app_id(&row), raw_id);
}

#[test]
fn multi_word_name_recovers_identifier_through_entry() {
    // With a multi-word name the row's second whitespace token is the
    // name's second word, so re-parsing the row cannot recover the
    // identifier; resolving the chosen row against its entry does.
    let entries = inventory_entries("My Cool App org.example.Cool 2.1 stable flathub user\n");
    assert_eq!(entries.len(), 1);
    let chosen = trim_whitespace(&entries[0].display);
    assert_eq!(
        resolve_app_id(&entries, &chosen),
        Some("org.example.Cool".to_string())
    );
}
