use mark_sync::manifest::parse_manifest;

fn entries(text: &str) -> Vec<String> {
    parse_manifest(text)
}

#[test]
fn blank_manifest_has_no_entries() {
    assert_eq!(entries(""), Vec::<String>::new());
    assert_eq!(entries("\n\n   \n"), Vec::<String>::new());
}

#[test]
fn dash_and_space_alone_is_the_empty_entry() {
    assert_eq!(entries("- "), vec![String::new()]);
    assert_eq!(entries("- \n"), vec![String::new()]);
    assert_eq!(entries("  -    \n- a"), vec![String::new(), "a".to_string()]);
}

#[test]
fn entries_come_in_the_order_of_the_lines() {
    assert_eq!(
        entries("- agents/a.agent.marks\n- tools/t.tool.marks\n- notes.txt\n"),
        vec!["agents/a.agent.marks", "tools/t.tool.marks", "notes.txt"]
    );
}

#[test]
fn equal_entries_are_all_kept() {
    assert_eq!(entries("- a\n- b\n- a\n"), vec!["a", "b", "a"]);
}

#[test]
fn other_lines_are_passed_over() {
    let text = "# Manifest\n\n-x\n-\ty\n* z\n- ok\nplain - text\n -\n";
    assert_eq!(entries(text), vec!["ok"]);
}

#[test]
fn white_space_round_line_and_entry_is_dropped() {
    assert_eq!(entries("   -    spaced path  \t\r\n"), vec!["spaced path"]);
    assert_eq!(entries("\t- a\r\n\u{a0}- b\u{3000}\r\n"), vec!["a", "b"]);
}

#[test]
fn prefix_is_taken_off_once() {
    assert_eq!(entries("- - nested"), vec!["- nested"]);
    assert_eq!(entries("-  - two"), vec!["- two"]);
}

#[test]
fn last_line_needs_no_line_feed() {
    assert_eq!(entries("- a\n- b"), vec!["a", "b"]);
    assert_eq!(entries("- a\n- b\n"), vec!["a", "b"]);
}

#[test]
fn entry_may_hold_any_character() {
    assert_eq!(entries("- dir with space/é.agent.marks\n"), vec!["dir with space/é.agent.marks"]);
}
