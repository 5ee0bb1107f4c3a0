use pureconfig::parser::{get_lines, to_string, Line, ParseError};
use pureconfig::scan::ScanError;

fn assert_syntax_error(contents: &str) {
    assert_eq!(get_lines(contents).unwrap_err(), ParseError::Syntax);
}

fn get_lines_vec(contents: &str) -> Vec<Line> {
    get_lines(contents).unwrap()
}

fn key_value(key: &str, value: &str) -> Line {
    Line::KeyValue(key.to_string(), value.to_string())
}

fn comment(content: &str) -> Line {
    Line::Comment(content.to_string())
}

#[test]
fn root_level_empty() {
    assert_eq!(get_lines_vec(""), vec![]);
}

#[test]
fn root_level_single_property() {
    let result = vec![key_value("hostname", "dynamo")];
    assert_eq!(get_lines("hostname = \"dynamo\"").unwrap(), result);
}

#[test]
fn parser_root_level_three_properties() {
    let result = vec![
        key_value("hostname", "dynamo"),
        key_value("port", "5153"),
        key_value("path", "/foo/bar"),
    ];
    assert_eq!(
        get_lines("hostname = \"dynamo\"\nport = \"5153\"\npath = \"/foo/bar\"").unwrap(),
        result
    );
}

#[test]
fn just_a_word() {
    assert_syntax_error("hostname");
}

#[test]
fn word_and_equals() {
    assert_syntax_error("hostname = ");
}

#[test]
fn quoted_word_with_stuff_after() {
    assert_syntax_error("hostname = \"dynamo\"great");
    assert_syntax_error("hostname = \"dynamo\" great");
}

#[test]
fn root_level_property_with_dots() {
    let result = vec![key_value("host.name", "dynamo")];
    assert_eq!(get_lines("host.name = \"dynamo\"").unwrap(), result);
}

#[test]
fn root_level_property_with_underscores() {
    let result = vec![key_value("host_name", "dynamo")];
    assert_eq!(get_lines("host_name = \"dynamo\"").unwrap(), result);
}

#[test]
fn bare_words() {
    let result = vec![key_value("hostname", "dynamo")];
    assert_eq!(get_lines("hostname = dynamo").unwrap(), result);
}

#[test]
fn multiline_bare_words() {
    let result = vec![
        key_value("hostname", "dynamo"),
        key_value("port", "5153"),
        key_value("path", "/foo/bar"),
    ];
    assert_eq!(
        get_lines("hostname = dynamo\nport = 5153\npath = /foo/bar").unwrap(),
        result
    );
}

#[test]
fn bare_words_until_end_of_line() {
    let result = vec![key_value("hostname", "dynamo is bae")];
    assert_eq!(get_lines("hostname = dynamo is bae").unwrap(), result);
}

#[test]
fn parser_comments() {
    let result = vec![Line::Comment(" Just a comment.".to_string())];
    assert_eq!(get_lines("# Just a comment.").unwrap(), result);
}

#[test]
fn comment_after_bare_words() {
    let result = vec![key_value(
        "hostname",
        "dynamo # This isn't actually a comment.",
    )];
    assert_eq!(
        get_lines("hostname = dynamo # This isn't actually a comment.").unwrap(),
        result
    );
}

#[test]
fn comment_after_quote() {
    assert_syntax_error("hostname = \"dynamo\" # This isn't actually a comment.");
}

#[test]
fn comment_keeps_leading_space() {
    assert_eq!(get_lines_vec("# hi"), vec![comment(" hi")]);
    assert_eq!(get_lines_vec("#hi"), vec![comment("hi")]);
}

#[test]
fn bare_hash_is_an_empty_comment() {
    assert_eq!(get_lines_vec("#"), vec![comment("")]);
    assert_eq!(get_lines_vec("#\n"), vec![comment("")]);
    assert_eq!(get_lines_vec("#\n#"), vec![comment(""), comment("")]);
}

#[test]
fn comment_may_hold_a_separator() {
    assert_eq!(get_lines_vec("# a = b"), vec![comment(" a = b")]);
    assert_eq!(
        get_lines_vec("#a = \"b\" c"),
        vec![comment("a = \"b\" c")]
    );
}

#[test]
fn comment_before_property() {
    assert_eq!(
        get_lines_vec("# the host\nhostname = dynamo"),
        vec![comment(" the host"), key_value("hostname", "dynamo")]
    );
}

#[test]
fn lines_keep_document_order() {
    assert_eq!(
        get_lines_vec("b = 2\n# c\na = 1\nb = 3\n"),
        vec![
            key_value("b", "2"),
            comment(" c"),
            key_value("a", "1"),
            key_value("b", "3"),
        ]
    );
}

#[test]
fn bare_value_ends_at_line_feed() {
    assert_eq!(
        get_lines_vec("a = b\nc = d"),
        vec![key_value("a", "b"), key_value("c", "d")]
    );
}

#[test]
fn bare_value_ends_at_carriage_return_line_feed() {
    assert_eq!(
        get_lines_vec("a = b\r\nc = d\r\n"),
        vec![key_value("a", "b"), key_value("c", "d")]
    );
}

#[test]
fn bare_value_keeps_trailing_blanks() {
    assert_eq!(
        get_lines_vec("a = b \t\nc = d"),
        vec![key_value("a", "b \t"), key_value("c", "d")]
    );
}

#[test]
fn bare_value_may_be_empty_before_a_line_ending() {
    assert_eq!(get_lines_vec("k = \n"), vec![key_value("k", "")]);
    assert_eq!(get_lines_vec("k = \r\n"), vec![key_value("k", "")]);
    assert_eq!(
        get_lines_vec("k = \nnext = 1"),
        vec![key_value("k", ""), key_value("next", "1")]
    );
}

#[test]
fn value_is_needed_at_end_of_input() {
    assert_syntax_error("k = ");
    assert_syntax_error("a = 1\nk = ");
}

#[test]
fn quoted_value_ends_at_line_ending() {
    assert_eq!(
        get_lines_vec("a = \"b\"\nc = \"d\""),
        vec![key_value("a", "b"), key_value("c", "d")]
    );
    assert_eq!(
        get_lines_vec("a = \"b\"\r\nc = \"d\"\r\n"),
        vec![key_value("a", "b"), key_value("c", "d")]
    );
}

#[test]
fn quoted_value_may_be_empty() {
    assert_eq!(get_lines_vec("a = \"\""), vec![key_value("a", "")]);
}

#[test]
fn quoted_value_may_span_lines() {
    assert_eq!(
        get_lines_vec("a = \"b\nc = d\"\ne = f"),
        vec![key_value("a", "b\nc = d"), key_value("e", "f")]
    );
}

#[test]
fn quoted_value_keeps_hash_and_blanks() {
    assert_eq!(
        get_lines_vec("a = \" # b \""),
        vec![key_value("a", " # b ")]
    );
}

#[test]
fn quote_must_be_closed() {
    assert_syntax_error("a = \"");
    assert_syntax_error("a = \"b");
    assert_syntax_error("a = \"b\nc = d");
}

#[test]
fn closing_quote_must_end_the_line() {
    assert_syntax_error("a = \"b\" ");
    assert_syntax_error("a = \"b\"\t\n");
    assert_syntax_error("a = \"b\"\"");
    assert_syntax_error("a = \"b\"\r");
    assert_syntax_error("a = \"b\"\rc = d");
}

#[test]
fn bare_value_does_not_start_with_quote() {
    assert_eq!(
        get_lines_vec("a = b\"c\""),
        vec![key_value("a", "b\"c\"")]
    );
    assert_syntax_error("a = \"b\"c");
}

#[test]
fn lone_carriage_return_is_no_line_ending() {
    assert_syntax_error("a = b\rc = d");
    assert_syntax_error("a = b\r");
    assert_syntax_error("# c\rd");
    assert_syntax_error("# c\r");
}

#[test]
fn separator_is_exact() {
    assert_syntax_error("a=b");
    assert_syntax_error("a =b");
    assert_syntax_error("a= b");
    assert_syntax_error("a\t=\tb");
    assert_eq!(get_lines_vec("a  = b"), vec![key_value("a ", "b")]);
    assert_eq!(get_lines_vec("a =  b"), vec![key_value("a", " b")]);
    assert_eq!(get_lines_vec("a == b = c"), vec![key_value("a == b", "c")]);
}

#[test]
fn key_ends_at_first_separator() {
    assert_eq!(
        get_lines_vec("a = b = c"),
        vec![key_value("a", "b = c")]
    );
    assert_eq!(
        get_lines_vec("host name = dynamo"),
        vec![key_value("host name", "dynamo")]
    );
}

#[test]
fn key_stays_on_its_line() {
    assert_syntax_error("hostname\nport = 5153");
    assert_syntax_error("hostname\r\nport = 5153");
    assert_syntax_error("a = 1\nhostname\nport = 5153");
}

#[test]
fn white_space_around_lines_is_skipped() {
    assert_eq!(
        get_lines_vec("  \t a = b\n\n\r\n   # c\n\t d = \"e\"\n\n"),
        vec![key_value("a", "b"), comment(" c"), key_value("d", "e")]
    );
}

#[test]
fn white_space_alone_is_no_document() {
    assert_syntax_error(" ");
    assert_syntax_error("\n");
    assert_syntax_error(" \t\r\n");
}

#[test]
fn text_beyond_ascii_is_kept() {
    assert_eq!(
        get_lines_vec("caf\u{e9} = cr\u{e8}me\n# \u{65e5}\u{672c}\u{8a9e}\nk\u{1f600} = \"\u{1f600} \u{fc}\""),
        vec![
            key_value("caf\u{e9}", "cr\u{e8}me"),
            comment(" \u{65e5}\u{672c}\u{8a9e}"),
            key_value("k\u{1f600}", "\u{1f600} \u{fc}"),
        ]
    );
    assert_eq!(
        get_lines_vec("\u{e9} = \u{e9}"),
        vec![key_value("\u{e9}", "\u{e9}")]
    );
}

#[test]
fn nothing_is_returned_beside_an_error() {
    assert_eq!(get_lines("a = 1\nb = 2\nc"), Err(ParseError::Syntax));
    assert_eq!(get_lines("a = 1\nb = \"2\" x\nc = 3"), Err(ParseError::Syntax));
}

#[test]
fn to_string_decodes_bytes() {
    assert_eq!(to_string(b"dynamo"), "dynamo".to_string());
    assert_eq!(to_string(b""), String::new());
    assert_eq!(to_string("cr\u{e8}me \u{1f600}".as_bytes()), "cr\u{e8}me \u{1f600}");
    assert_eq!(to_string(&[0xe6, 0x97, 0xa5]), "\u{65e5}");
}

#[test]
fn every_scan_error_is_a_syntax_error() {
    assert_eq!(ParseError::from(ScanError::Incomplete), ParseError::Syntax);
    assert_eq!(ParseError::from(ScanError::Mismatch), ParseError::Syntax);
}
