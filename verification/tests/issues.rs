use tush::arguments::Cli;
use tush::ignore::build_ignore_list;
use tush::parser::parser_file;
use tush::posting::{issues_url, Issue};

#[test]
fn issue_from_token_builds_title_and_body() {
    let tokens = parser_file("// TODO: fix the thing\n// details here\n");
    assert_eq!(tokens.len(), 1);
    let issue = Issue::from_token(&tokens[0], "user", "repo", "main", "repo/src/a.rs");
    assert_eq!(issue.title().as_str(), "Todo: fix the thing");
    assert_eq!(
        issue.body().as_str(),
        "details here\n[Todo](http://github.com/user/repo/blob/main/src/a.rs#L1)"
    );
    assert_eq!(issue.assignees().len(), 0);
    assert_eq!(issue.labels().len(), 0);
}

#[test]
fn issue_display_string() {
    let tokens = parser_file("// FIXME: broken");
    let issue = Issue::from_token(&tokens[0], "u", "repo", "b", "repo/f.rs");
    let shown = issue.to_display_string();
    assert_eq!(
        shown,
        "Fixme: broken\n\n[Fixme](http://github.com/u/repo/blob/b/f.rs#L1)"
    );
}

#[test]
fn issue_equality() {
    let tokens = parser_file("// TODO: same");
    let a = Issue::from_token(&tokens[0], "u", "repo", "b", "repo/f.rs");
    let b = Issue::from_token(&tokens[0], "u", "repo", "b", "repo/f.rs");
    let c = Issue::from_token(&tokens[0], "other", "repo", "b", "repo/f.rs");
    assert!(a == b);
    assert!(a != c);
}

#[test]
fn issues_url_format() {
    assert_eq!(
        issues_url("owner", "project"),
        "https://api.github.com/repos/owner/project/issues"
    );
}

#[test]
fn ignore_list_of_empty_content() {
    let list = build_ignore_list("");
    assert_eq!(
        list,
        vec![
            "./.git".to_string(),
            "./.gitignore".to_string(),
            "./Cargo.toml".to_string(),
            "./Cargo.lock".to_string(),
        ]
    );
}

#[test]
fn ignore_list_trims_and_dots_absolute_entries() {
    let list = build_ignore_list("/target\n  notes.txt  \nplain\n");
    assert_eq!(
        list,
        vec![
            "./target".to_string(),
            "notes.txt".to_string(),
            "plain".to_string(),
            "./.git".to_string(),
            "./.gitignore".to_string(),
            "./Cargo.toml".to_string(),
            "./Cargo.lock".to_string(),
        ]
    );
}

#[test]
fn cli_defaults() {
    let cli = Cli::default();
    assert_eq!(cli.path, ".");
    assert!(!cli.check);
}

#[test]
fn cli_new_keeps_values() {
    let cli = Cli::new("src".to_string(), true);
    assert_eq!(cli.path, "src");
    assert!(cli.check);
}
