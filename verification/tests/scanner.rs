use tush::parser::{parser_file, Kind, Token};

#[test]
fn empty_input_yields_no_tokens() {
    let tokens = parser_file("");
    assert_eq!(tokens.len(), 0);
}

#[test]
fn markerless_text_yields_no_tokens() {
    let src = "fn main() {\n    let x = 1;\n    // just a comment\n}\n";
    let tokens = parser_file(src);
    assert_eq!(tokens.len(), 0);
}

#[test]
fn title_extraction() {
    let tokens = parser_file("// TODO: fix the thing");
    assert_eq!(tokens.len(), 1);
    assert!(matches!(tokens[0].kind, Kind::Todo));
    assert_eq!(tokens[0].title, "fix the thing");
    assert_eq!(tokens[0].position, 1);
    assert_eq!(tokens[0].message.len(), 0);
}

#[test]
fn continuation_absorption() {
    let src = "// TODO: refactor this\n// it's too complex\n// split into two functions\nx = 1\n";
    let tokens = parser_file(src);
    assert_eq!(tokens.len(), 1);
    assert_eq!(tokens[0].position, 1);
    assert_eq!(tokens[0].title, "refactor this");
    assert_eq!(
        tokens[0].message,
        vec!["it's too complex".to_string(), "split into two functions".to_string()]
    );
}

#[test]
fn scanning_resumes_after_absorption() {
    let src = "// TODO: a\nx = 1\n// FIXME: b\n";
    let tokens = parser_file(src);
    assert_eq!(tokens.len(), 2);
    assert_eq!(tokens[0].position, 1);
    assert!(matches!(tokens[0].kind, Kind::Todo));
    assert_eq!(tokens[1].position, 3);
    assert!(matches!(tokens[1].kind, Kind::Fixme));
}

#[test]
fn non_comment_interruption() {
    let src = "// TODO: a\nx\n// plain comment\n// FIXME: b";
    let tokens = parser_file(src);
    assert_eq!(tokens.len(), 2);
    assert_eq!(tokens[0].position, 1);
    assert_eq!(tokens[0].message.len(), 0);
    assert_eq!(tokens[1].position, 4);
    assert_eq!(tokens[1].title, "b");
}

#[test]
fn empty_title() {
    let tokens = parser_file("// FIXME:");
    assert_eq!(tokens.len(), 1);
    assert!(matches!(tokens[0].kind, Kind::Fixme));
    assert_eq!(tokens[0].title, "");
}

#[test]
fn unmatched_prefix_recovery() {
    let src = "// NOTE: something\n// TODO: real work";
    let tokens = parser_file(src);
    assert_eq!(tokens.len(), 1);
    assert_eq!(tokens[0].position, 2);
    assert_eq!(tokens[0].title, "real work");
}

#[test]
fn order_preservation() {
    let src = "// TODO: one\nx\n// FIXME: two\ny\n// TODO: three\n";
    let tokens = parser_file(src);
    let positions: Vec<usize> = tokens.iter().map(|t| t.position).collect();
    assert_eq!(positions, vec![1, 3, 5]);
}

#[test]
fn leading_whitespace_before_prefix() {
    let tokens = parser_file("    // TODO: indented");
    assert_eq!(tokens.len(), 1);
    assert_eq!(tokens[0].title, "indented");
}

#[test]
fn whitespace_between_prefix_and_keyword() {
    let tokens = parser_file("//   FIXME: spaced out");
    assert_eq!(tokens.len(), 1);
    assert!(matches!(tokens[0].kind, Kind::Fixme));
    assert_eq!(tokens[0].title, "spaced out");
}

#[test]
fn marker_comment_below_is_absorbed() {
    let src = "// TODO: a\n// TODO: b\nz";
    let tokens = parser_file(src);
    assert_eq!(tokens.len(), 1);
    assert_eq!(tokens[0].message, vec!["TODO: b".to_string()]);
}

#[test]
fn missing_colon_is_no_marker() {
    let tokens = parser_file("// TODO missing colon\n// FIXME: found");
    assert_eq!(tokens.len(), 1);
    assert_eq!(tokens[0].position, 2);
}

#[test]
fn extended_keyword_is_no_marker() {
    let tokens = parser_file("// TODOX: nope");
    assert_eq!(tokens.len(), 0);
}

#[test]
fn title_keeps_trailing_whitespace() {
    let tokens = parser_file("// TODO:  padded  ");
    assert_eq!(tokens.len(), 1);
    assert_eq!(tokens[0].title, "padded  ");
}

#[test]
fn message_lines_are_trimmed() {
    let tokens = parser_file("// FIXME: x\n//    spaced   \n");
    assert_eq!(tokens.len(), 1);
    assert_eq!(tokens[0].message, vec!["spaced".to_string()]);
}

#[test]
fn blank_line_stops_absorption() {
    let src = "// TODO: a\n\n// not absorbed\n";
    let tokens = parser_file(src);
    assert_eq!(tokens.len(), 1);
    assert_eq!(tokens[0].message.len(), 0);
}

#[test]
fn marker_inside_code_line_is_not_recognized() {
    let tokens = parser_file("let x = 1; // TODO: trailing");
    assert_eq!(tokens.len(), 0);
}

#[test]
fn kind_names() {
    assert_eq!(Kind::Todo.name(), "Todo");
    assert_eq!(Kind::Fixme.name(), "Fixme");
}

#[test]
fn body_renders_messages_and_link() {
    let src = "// TODO: fix\n// more\n";
    let tokens = parser_file(src);
    assert_eq!(tokens.len(), 1);
    let body = tokens[0].body("user", "repo", "main", "/home/user/repo/src/main.rs");
    assert_eq!(
        body,
        "more\n[Todo](http://github.com/user/repo/blob/main/src/main.rs#L1)"
    );
}

#[test]
fn body_with_empty_message() {
    let token = Token {
        position: 42,
        kind: Kind::Fixme,
        title: "t".to_string(),
        message: Vec::new(),
    };
    let body = token.body("u", "repo", "b", "repo/f.rs");
    assert_eq!(body, "\n[Fixme](http://github.com/u/repo/blob/b/f.rs#L42)");
}

#[test]
fn body_filename_without_repo_occurrence() {
    let token = Token {
        position: 3,
        kind: Kind::Todo,
        title: "t".to_string(),
        message: Vec::new(),
    };
    let body = token.body("u", "repo", "b", "elsewhere.rs");
    assert_eq!(body, "\n[Todo](http://github.com/u/repo/blob/b/elsewhere.rs#L3)");
}

#[test]
fn body_takes_tail_after_last_repo_occurrence() {
    let token = Token {
        position: 1,
        kind: Kind::Todo,
        title: "t".to_string(),
        message: Vec::new(),
    };
    let body = token.body("u", "proj", "b", "/a/proj/x/proj/file.rs");
    assert_eq!(body, "\n[Todo](http://github.com/u/proj/blob/b/file.rs#L1)");
}
