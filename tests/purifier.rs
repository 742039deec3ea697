use md_parser::md_line_purifier::PurifiedMdLine;
use md_parser::md_line_reader::MdRawLine;

#[test]
fn head_purifier_test() {
    // test with proper spacing
    assert_eq!(
        PurifiedMdLine::purify(MdRawLine::Head(String::from("## head 2 {#head-2}"))),
        PurifiedMdLine::Head {
            title: String::from("head 2"),
            level: 2,
            id: String::from("head-2")
        }
    );

    // test with failed hash spacing
    assert_eq!(
        PurifiedMdLine::purify(MdRawLine::Head(String::from("##head 2 {#head-2}"))),
        PurifiedMdLine::FailedText(String::from("##head 2 {#head-2}"))
    );

    // test with failed head_text && custom_id spacing
    assert_eq!(
        PurifiedMdLine::purify(MdRawLine::Head(String::from("## head 2{#head-2}"))),
        PurifiedMdLine::Head {
            title: String::from("head 2{#head-2}"),
            level: 2,
            id: String::new()
        }
    );

    // test with failed custom_id spacing
    assert_eq!(
        PurifiedMdLine::purify(MdRawLine::Head(String::from("## head 2 {# head-2}"))),
        PurifiedMdLine::Head {
            title: String::from("head 2 {# head-2}"),
            level: 2,
            id: String::new()
        }
    );
}

#[test]
fn quote_purifier_test() {
    // test ok
    assert_eq!(
        PurifiedMdLine::purify(MdRawLine::Quote(String::from("> blockquote"))),
        PurifiedMdLine::Quote {
            nest_level: 1,
            inside_md: Box::new(PurifiedMdLine::Text("blockquote".to_string()))
        }
    );

    // should only trim one space from inside_md
    assert_eq!(
        PurifiedMdLine::purify(MdRawLine::Quote(String::from("> \t blockquote"))),
        PurifiedMdLine::Quote {
            nest_level: 1,
            inside_md: Box::new(PurifiedMdLine::Text(String::from("\t blockquote")))
        }
    );

    // test different level and more words
    assert_eq!(
        PurifiedMdLine::purify(MdRawLine::Quote(String::from(">>> blockquote lask"))),
        PurifiedMdLine::Quote {
            nest_level: 3,
            inside_md: Box::new(PurifiedMdLine::Text(String::from("blockquote lask")))
        }
    );

    // add some heading
    // hope this works for every single of them
    assert_eq!(
        PurifiedMdLine::purify(MdRawLine::Quote(String::from(">>> # blockquote lask"))),
        PurifiedMdLine::Quote {
            nest_level: 3,
            inside_md: Box::new(PurifiedMdLine::Head {
                level: 1,
                title: String::from("blockquote lask"),
                id: String::new()
            })
        }
    );
}

#[test]
fn olist_purifier_test() {
    // test ok
    assert_eq!(
        PurifiedMdLine::purify(MdRawLine::OList(String::from("1. a list"))),
        PurifiedMdLine::OList {
            list_number: 1,
            list_text: String::from("a list")
        }
    );

    // take the space with you
    assert_eq!(
        PurifiedMdLine::purify(MdRawLine::OList(String::from("1. \ta list"))),
        PurifiedMdLine::OList {
            list_number: 1,
            list_text: String::from("\ta list")
        }
    );
    // test space missing between n. & list_text
    // this case should be filtered out before in MdLine
}

#[test]
fn ulist_purifier_test() {
    // test ok
    assert_eq!(
        PurifiedMdLine::purify(MdRawLine::UList("- hello list is here".to_string())),
        PurifiedMdLine::UList {
            list_text: "hello list is here".to_string()
        }
    );

    // take the spaces with you
    assert_eq!(
        PurifiedMdLine::purify(MdRawLine::UList("-  hello list is here".to_string())),
        PurifiedMdLine::UList {
            list_text: " hello list is here".to_string()
        }
    );
}

#[test]
fn image_purifier_test() {
    // test ok
    assert_eq!(
        PurifiedMdLine::purify(MdRawLine::Image(String::from("![alt text](image.jpg)"))),
        PurifiedMdLine::Image {
            alt_text: "alt text".to_string(),
            link_text: "image.jpg".to_string()
        }
    );

    // spaces should be ignored
    assert_eq!(
        PurifiedMdLine::purify(MdRawLine::Image(String::from("![alt text](image.jpg) "))),
        PurifiedMdLine::Image {
            alt_text: "alt text".to_string(),
            link_text: "image.jpg".to_string()
        }
    );

    // space in between [] () should fail
    assert_eq!(
        PurifiedMdLine::purify(MdRawLine::Image(String::from("![alt text] (image.jpg) "))),
        PurifiedMdLine::FailedText("![alt text] (image.jpg) ".to_string())
    );
}

#[test]
fn table_purifier_test() {
    assert_eq!(
        PurifiedMdLine::purify(MdRawLine::Table("| hello | world |".to_string())),
        PurifiedMdLine::Table {
            row: vec![" hello ".to_string(), " world ".to_string()]
        }
    );

    // avoid preceding spaces
    assert_eq!(
        PurifiedMdLine::purify(MdRawLine::Table("| hello | world | ".to_string())),
        PurifiedMdLine::Table {
            row: vec![" hello ".to_string(), " world ".to_string()]
        }
    );

    // should only end with |
    assert_eq!(
        PurifiedMdLine::purify(MdRawLine::Table("| hello | world  ".to_string())),
        PurifiedMdLine::FailedText("| hello | world  ".to_string())
    );
}

#[test]
fn definition_purifier_test() {
    // test all trimmed and saved
    assert_eq!(
        PurifiedMdLine::purify(MdRawLine::Definition(": the definition   \t".to_string())),
        PurifiedMdLine::Definition {
            def_text: "the definition".to_string()
        }
    );
}

#[test]
fn tasked_purifier_test() {
    // this will only get lines starting with "- [ ] " or "- [X] "
    assert_eq!(
        PurifiedMdLine::purify(MdRawLine::TaskLine("- [ ] todo 1".to_string())),
        PurifiedMdLine::TaskedLine {
            task_text: "todo 1".to_string(),
            done: false
        }
    );
    assert_eq!(
        PurifiedMdLine::purify(MdRawLine::TaskLine("- [X] todo 1".to_string())),
        PurifiedMdLine::TaskedLine {
            task_text: "todo 1".to_string(),
            done: true
        }
    );
}

#[test]
fn head_level_out_of_range_fails() {
    assert_eq!(
        PurifiedMdLine::purify(MdRawLine::Head(String::from("####### seven"))),
        PurifiedMdLine::FailedText(String::from("####### seven"))
    );
    assert_eq!(
        PurifiedMdLine::purify_head(String::from("######")),
        PurifiedMdLine::Head { title: String::new(), level: 6, id: String::new() }
    );
}

#[test]
fn olist_number_out_of_u8_fails() {
    assert_eq!(
        PurifiedMdLine::purify_olist(String::from("300. x")),
        PurifiedMdLine::FailedText(String::from("300. x"))
    );
    assert_eq!(
        PurifiedMdLine::purify_olist(String::from("12.x")),
        PurifiedMdLine::FailedText(String::from("12.x"))
    );
}

#[test]
fn short_lines_fail() {
    assert_eq!(PurifiedMdLine::purify_quote(String::from(">")), PurifiedMdLine::FailedText(String::from(">")));
    assert_eq!(PurifiedMdLine::purify_ulist(String::from("-")), PurifiedMdLine::FailedText(String::from("-")));
    assert_eq!(PurifiedMdLine::purify_definition(String::from(":")), PurifiedMdLine::FailedText(String::from(":")));
    assert_eq!(PurifiedMdLine::purify_definition(String::from(":é x")), PurifiedMdLine::FailedText(String::from(":é x")));
    assert_eq!(PurifiedMdLine::purify_image(String::from("](x")), PurifiedMdLine::FailedText(String::from("](x")));
    assert_eq!(PurifiedMdLine::purify_taskline(String::from("- [y] t")), PurifiedMdLine::FailedText(String::from("- [y] t")));
}

#[test]
fn table_cells_skip_empty_pieces() {
    assert_eq!(
        PurifiedMdLine::purify_table(String::from("||a||")),
        PurifiedMdLine::Table { row: vec!["a".to_string()] }
    );
}

#[test]
fn unit_lines_pass_through() {
    assert_eq!(PurifiedMdLine::purify(MdRawLine::HR), PurifiedMdLine::HR);
    assert_eq!(PurifiedMdLine::purify(MdRawLine::CodeEnd), PurifiedMdLine::CodeEnd);
    assert_eq!(
        PurifiedMdLine::purify(MdRawLine::Text("t".to_string())),
        PurifiedMdLine::Text("t".to_string())
    );
}

#[test]
fn quote_level_counts_bytes() {
    assert_eq!(
        PurifiedMdLine::purify_quote(String::from("é x")),
        PurifiedMdLine::Quote { nest_level: 2, inside_md: Box::new(PurifiedMdLine::Text("x".to_string())) }
    );
    let long = format!("{} x", ">".repeat(257));
    assert_eq!(
        PurifiedMdLine::purify_quote(long),
        PurifiedMdLine::Quote { nest_level: 1, inside_md: Box::new(PurifiedMdLine::Text("x".to_string())) }
    );
}

#[test]
fn definition_skips_two_bytes() {
    assert_eq!(
        PurifiedMdLine::purify_definition(String::from("é: x")),
        PurifiedMdLine::Definition { def_text: ": x".to_string() }
    );
}

#[test]
fn image_skips_two_bytes_and_needs_ascii_end() {
    assert_eq!(
        PurifiedMdLine::purify_image(String::from("éa](b)")),
        PurifiedMdLine::Image { alt_text: "a".to_string(), link_text: "b".to_string() }
    );
    assert_eq!(
        PurifiedMdLine::purify_image(String::from("![a](bé")),
        PurifiedMdLine::FailedText("![a](bé".to_string())
    );
}

#[test]
fn code_fence_purifies_as_code_start() {
    assert_eq!(PurifiedMdLine::purify(MdRawLine::CodeBlock), PurifiedMdLine::CodeStart);
}
