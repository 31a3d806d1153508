use flatpick::format::format_columns;

#[test]
fn six_token_line_becomes_six_fixed_width_fields() {
    let row = format_columns("Calculator org.gnome.Calculator 1.0 stable flathub system");
    let expected = format!(
        "{:<20} {:<40} {:<10} {:<10} {:<20} {:<15}",
        "Calculator", "org.gnome.Calculator", "1.0", "stable", "flathub", "system"
    );
    assert_eq!(row, expected);
    // Six fields of widths 20/40/10/10/20/15 joined by five single spaces.
    assert_eq!(row.chars().count(), 20 + 1 + 40 + 1 + 10 + 1 + 10 + 1 + 20 + 1 + 15);
}

#[test]
fn multi_word_name_joins_leading_tokens() {
    let row = format_columns("My Cool App org.example.Cool 2.1 stable flathub user");
    let expected = format!(
        "{:<20} {:<40} {:<10} {:<10} {:<20} {:<15}",
        "My Cool App", "org.example.Cool", "2.1", "stable", "flathub", "user"
    );
    assert_eq!(row, expected);
}

#[test]
fn short_line_passes_through_unchanged() {
    assert_eq!(format_columns("a b c d e"), "a b c d e");
    assert_eq!(format_columns("one"), "one");
    assert_eq!(format_columns(""), "");
    assert_eq!(format_columns("   spaced   out   "), "   spaced   out   ");
}

#[test]
fn long_name_is_truncated_with_ellipsis() {
    // 25-character name: keeps 17 characters, then "...", total 20.
    let name = "abcdefghijklmnopqrstuvwxy";
    let line = format!("{} org.example.App 1.0 stable flathub system", name);
    let row = format_columns(&line);
    let cut = format!("{}...", &name[..17]);
    assert_eq!(cut.len(), 20);
    assert!(row.starts_with(&cut));
    let expected = format!(
        "{:<20} {:<40} {:<10} {:<10} {:<20} {:<15}",
        cut, "org.example.App", "1.0", "stable", "flathub", "system"
    );
    assert_eq!(row, expected);
}

#[test]
fn long_identifier_is_truncated_with_ellipsis() {
    // 40-character identifier: keeps 31 characters, then "...", total 34.
    let id = "org.example.averyveryverylongname.App400";
    assert_eq!(id.len(), 40);
    let line = format!("Name {} 1.0 stable flathub system", id);
    let row = format_columns(&line);
    let cut = format!("{}...", &id[..31]);
    assert_eq!(cut.len(), 34);
    let expected = format!(
        "{:<20} {:<40} {:<10} {:<10} {:<20} {:<15}",
        "Name", cut, "1.0", "stable", "flathub", "system"
    );
    assert_eq!(row, expected);
}

#[test]
fn long_version_is_truncated_with_ellipsis() {
    // 12-character version: keeps 7 characters, then "...", total 10.
    let line = format!("Name org.example.App {} stable flathub system", "1.2.3-beta.4");
    let row = format_columns(&line);
    let expected = format!(
        "{:<20} {:<40} {:<10} {:<10} {:<20} {:<15}",
        "Name", "org.example.App", "1.2.3-b...", "stable", "flathub", "system"
    );
    assert_eq!(row, expected);
}

#[test]
fn uncapped_fields_keep_their_full_text() {
    // Branch, origin and installation have widths but no caps.
    let line = "Name org.example.App 1.0 averyveryverylongbranchname flathub system";
    let row = format_columns(line);
    let expected = format!(
        "{:<20} {:<40} {:<10} {:<10} {:<20} {:<15}",
        "Name", "org.example.App", "1.0", "averyveryverylongbranchname", "flathub", "system"
    );
    assert_eq!(row, expected);
}

#[test]
fn tabs_and_repeated_spaces_delimit_tokens() {
    let row = format_columns("Calc\t\torg.gnome.Calc   1.0  stable\tflathub   system");
    let expected = format!(
        "{:<20} {:<40} {:<10} {:<10} {:<20} {:<15}",
        "Calc", "org.gnome.Calc", "1.0", "stable", "flathub", "system"
    );
    assert_eq!(row, expected);
}
