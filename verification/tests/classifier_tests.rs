use vhsichdl::classifier::detect_entities;
use vhsichdl::classifier::is_testbench;

#[test]
fn detects_single_entity_line() {
    let v = detect_entities("entity Foo is ...");
    assert_eq!(v, vec!["Foo".to_string()]);
}

#[test]
fn detects_entities_in_line_order() {
    let text = "library ieee;\nentity Alpha is port(); end;\nsignal s : bit;\nentity Beta is port();\n";
    let v = detect_entities(text);
    assert_eq!(v, vec!["Alpha".to_string(), "Beta".to_string()]);
}

#[test]
fn keeps_duplicate_declarations() {
    let v = detect_entities("entity A is x\nentity A is y\n");
    assert_eq!(v, vec!["A".to_string(), "A".to_string()]);
}

#[test]
fn no_matching_line_gives_empty_result() {
    let v = detect_entities("signal x : bit;\nprocess begin end process;\n");
    assert!(v.is_empty());
}

#[test]
fn empty_input_gives_empty_result() {
    let v = detect_entities("");
    assert!(v.is_empty());
}

#[test]
fn multi_line_declaration_is_not_detected() {
    // The entity token and the `is` token must share a line.
    let v = detect_entities("entity Foo\nis ...\n");
    assert!(v.is_empty());
}

#[test]
fn trims_whitespace_around_declaration_and_name() {
    let v = detect_entities("   entity   Spaced   is   something  ");
    assert_eq!(v, vec!["Spaced".to_string()]);
}

#[test]
fn handles_crlf_line_endings() {
    let v = detect_entities("entity A is x\r\nentity B is y\r\n");
    assert_eq!(v, vec!["A".to_string(), "B".to_string()]);
}

#[test]
fn missing_is_marker_is_ignored() {
    // No space after `is`, so the ` is ` marker never occurs on the line.
    let v = detect_entities("entity Foo is");
    assert!(v.is_empty());
}

#[test]
fn empty_name_between_markers_is_preserved() {
    // `entity ` immediately followed by ` is `: the extracted name is empty.
    let v = detect_entities("entity  is x");
    assert_eq!(v, vec![String::new()]);
}

#[test]
fn testbench_keyword_assert() {
    assert!(is_testbench("assert true;"));
}

#[test]
fn testbench_no_keyword() {
    assert!(!is_testbench("signal x : bit;"));
}

#[test]
fn testbench_keyword_wait() {
    assert!(is_testbench("wait for 10 ns;"));
}

#[test]
fn testbench_keyword_report() {
    assert!(is_testbench("report \"done\";"));
}

#[test]
fn testbench_stop_idiom() {
    assert!(is_testbench("std.env.stop;"));
}

#[test]
fn testbench_detection_is_case_sensitive() {
    assert!(!is_testbench("ASSERT TRUE;"));
}

#[test]
fn testbench_keyword_inside_word_counts() {
    // Coarse heuristic: no word-boundary checking.
    assert!(is_testbench("signal waiting : bit;"));
}
