use flatpick::pipeline::{build_fzf_input, build_run_command, command_preview, format_inventory};
use flatpick::text::{split_tokens, trim_whitespace};

const HEADER: &str = "Name                 AppID                                    Version     Branch     Origin               Installation    \n";

#[test]
fn empty_inventory_gives_no_rows() {
    let rows = format_inventory("");
    assert!(rows.is_empty());
}

#[test]
fn one_line_inventory_gives_one_row() {
    let rows = format_inventory("Calculator org.gnome.Calculator 1.0 stable flathub system\n");
    assert_eq!(rows.len(), 1);
    let expected = format!(
        "{:<20} {:<40} {:<10} {:<10} {:<20} {:<15}",
        "Calculator", "org.gnome.Calculator", "1.0", "stable", "flathub", "system"
    );
    assert_eq!(rows[0], expected);
}

#[test]
fn inventory_keeps_order_and_drops_empty_lines() {
    let text = "A org.a 1 stable flathub system\n\nB org.b 2 stable flathub user\n";
    let rows = format_inventory(text);
    assert_eq!(rows.len(), 2);
    assert!(rows[0].starts_with("A "));
    assert!(rows[1].starts_with("B "));
}

#[test]
fn inventory_handles_crlf_line_endings() {
    let rows = format_inventory("A org.a 1 stable flathub system\r\nB org.b 2 stable flathub user\r\n");
    assert_eq!(rows.len(), 2);
    // The carriage returns are stripped, so the last field is the bare
    // installation token, padded to width 15.
    assert!(rows[0].ends_with(&format!("{:<15}", "system")));
    assert!(rows[1].ends_with(&format!("{:<15}", "user")));
}

#[test]
fn inventory_formats_a_final_line_without_newline() {
    let rows = format_inventory("A org.a 1 stable flathub system");
    assert_eq!(rows.len(), 1);
    let expected = format!(
        "{:<20} {:<40} {:<10} {:<10} {:<20} {:<15}",
        "A", "org.a", "1", "stable", "flathub", "system"
    );
    assert_eq!(rows[0], expected);
}

#[test]
fn fzf_input_is_header_then_rows_joined_by_newlines() {
    let rows = vec![String::from("row one"), String::from("row two")];
    let input = build_fzf_input(&rows);
    assert_eq!(input, format!("{}row one\nrow two", HEADER));
}

#[test]
fn fzf_input_for_no_rows_is_just_the_header() {
    let rows: Vec<String> = vec![];
    assert_eq!(build_fzf_input(&rows), HEADER);
}

#[test]
fn run_command_with_empty_input_keeps_trailing_space() {
    let cmd = build_run_command("org.gnome.Calculator", "\n");
    assert_eq!(cmd, "flatpak run org.gnome.Calculator ");
}

#[test]
fn run_command_appends_trimmed_arguments() {
    let cmd = build_run_command("org.gnome.Calculator", "  --fullscreen now  \n");
    assert_eq!(cmd, "flatpak run org.gnome.Calculator --fullscreen now");
}

#[test]
fn preview_is_prefix_plus_identifier() {
    assert_eq!(command_preview("org.gnome.Calculator"), "flatpak run org.gnome.Calculator");
}

#[test]
fn trim_removes_surrounding_whitespace_only() {
    assert_eq!(trim_whitespace("  a b  "), "a b");
    assert_eq!(trim_whitespace("\n"), "");
    assert_eq!(trim_whitespace(""), "");
    assert_eq!(trim_whitespace("x"), "x");
    assert_eq!(trim_whitespace("\t mid dle \r\n"), "mid dle");
}

#[test]
fn split_tokens_matches_whitespace_splitting() {
    let toks = split_tokens("  a  bb\tccc ");
    assert_eq!(toks, vec!["a".to_string(), "bb".to_string(), "ccc".to_string()]);
    let none = split_tokens("   ");
    assert!(none.is_empty());
    let one = split_tokens("solo");
    assert_eq!(one, vec!["solo".to_string()]);
}
