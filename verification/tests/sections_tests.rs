use logfine::sections::parse_section;

#[test]
fn test_parse_section_bracket() {
    let content = "[What worked]\n- Task A\n- Task B\n\n[What failed]\n- Task C\n";
    assert_eq!(parse_section(content, "What worked"), vec!["Task A", "Task B"]);
    assert_eq!(parse_section(content, "What failed"), vec!["Task C"]);
    assert!(parse_section(content, "Output").is_empty());
}

#[test]
fn test_parse_section_markdown_heading() {
    let content = "## What worked\n- Task A\n- Task B\n\n# What failed\n- Task C\n";
    assert_eq!(parse_section(content, "What worked"), vec!["Task A", "Task B"]);
    assert_eq!(parse_section(content, "What failed"), vec!["Task C"]);
    assert!(parse_section(content, "Output").is_empty());
}

#[test]
fn test_parse_section_mixed() {
    let content = "[What worked]\n- Task A\n\n## What failed\n- Task B\n\n### Output\n- Task C\n";
    assert_eq!(parse_section(content, "What worked"), vec!["Task A"]);
    assert_eq!(parse_section(content, "What failed"), vec!["Task B"]);
    assert_eq!(parse_section(content, "Output"), vec!["Task C"]);
}

#[test]
fn entries_of_joined_texts_are_joined() {
    let a = "[What worked]\n- A\n";
    let b = "## What worked\n- B\n[Output]\n- C\n";
    let joined = format!("{}{}", a, b);
    let mut expected = parse_section(a, "What worked");
    expected.extend(parse_section(b, "What worked"));
    assert_eq!(parse_section(&joined, "What worked"), expected);
    assert_eq!(expected, vec!["A".to_string(), "B".to_string()]);
}
