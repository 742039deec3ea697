use md_parser::md_line_reader::{
    starts_with_ordered_list_pattern, to_mdline, to_mdline_in_file, to_mdlines, to_mdlines_in_file, MdRawLine,
};

#[test]
fn md_line_reader_test_ordered_list_check() {
    assert!(starts_with_ordered_list_pattern(&String::from("1. jsdf")));
    assert!(!starts_with_ordered_list_pattern(&String::from(" 1jsdf")));
    assert!(!starts_with_ordered_list_pattern(&String::from(" 1jsdf.")));
    assert!(starts_with_ordered_list_pattern(&String::from("1.jsdf.")));
    assert!(starts_with_ordered_list_pattern(&String::from("1. ")));
}

#[test]
fn ordered_list_number_must_fit_u32() {
    assert!(starts_with_ordered_list_pattern(&String::from("4294967295. x")));
    assert!(!starts_with_ordered_list_pattern(&String::from("4294967296. x")));
    assert!(starts_with_ordered_list_pattern(&String::from("+7. x")));
    assert!(!starts_with_ordered_list_pattern(&String::from(". x")));
}

#[test]
fn lines_are_sorted_by_prefix() {
    assert!(matches!(to_mdline("## t".to_string()), MdRawLine::Head(s) if s == "## t"));
    assert!(matches!(to_mdline("> q".to_string()), MdRawLine::Quote(_)));
    assert!(matches!(to_mdline("- [X] t".to_string()), MdRawLine::TaskLine(_)));
    assert!(matches!(to_mdline("3. x".to_string()), MdRawLine::OList(_)));
    assert!(matches!(to_mdline("- x".to_string()), MdRawLine::UList(_)));
    assert!(matches!(to_mdline("----".to_string()), MdRawLine::HR));
    assert!(matches!(to_mdline("![a](b)".to_string()), MdRawLine::Image(_)));
    assert!(matches!(to_mdline("|a|".to_string()), MdRawLine::Table(_)));
    assert!(matches!(to_mdline("```rust".to_string()), MdRawLine::CodeBlock));
    assert!(matches!(to_mdline(": d".to_string()), MdRawLine::Definition(_)));
    assert!(matches!(to_mdline("\tx".to_string()), MdRawLine::TabbedLine(s) if s == "\tx"));
    assert!(matches!(to_mdline("\n".to_string()), MdRawLine::EmptyLine));
    assert!(matches!(to_mdline("plain".to_string()), MdRawLine::Text(s) if s == "plain"));
}

#[test]
fn code_block_lines_are_text() {
    let lines = vec![
        "# a".to_string(),
        "```".to_string(),
        "# not a head".to_string(),
        "```".to_string(),
        "- item".to_string(),
    ];
    let r = to_mdlines_in_file(lines);
    assert_eq!(r.len(), 5);
    assert!(matches!(&r[0], MdRawLine::Head(_)));
    assert!(matches!(&r[1], MdRawLine::CodeStart));
    assert!(matches!(&r[2], MdRawLine::Text(s) if s == "# not a head"));
    assert!(matches!(&r[3], MdRawLine::CodeEnd));
    assert!(matches!(&r[4], MdRawLine::UList(_)));
}

#[test]
fn file_lines_have_no_tab_class() {
    assert!(matches!(to_mdline_in_file("\tx".to_string()), MdRawLine::Text(s) if s == "\tx"));
    assert!(matches!(to_mdline_in_file("```".to_string()), MdRawLine::CodeStart));
    assert!(matches!(to_mdline_in_file("# h".to_string()), MdRawLine::Head(_)));
}

#[test]
fn to_mdlines_sorts_each_line_alone() {
    let r = to_mdlines(vec!["```".to_string(), "# x".to_string(), "\ty".to_string()]);
    assert_eq!(r.len(), 3);
    assert!(matches!(&r[0], MdRawLine::CodeBlock));
    assert!(matches!(&r[1], MdRawLine::Head(s) if s == "# x"));
    assert!(matches!(&r[2], MdRawLine::TabbedLine(_)));
}
