use ncc::bridge::{
    api_response_text, captain_message, github_repository_slug, github_write_grant,
    github_write_target, staffing_brief,
};
use ncc::text::trim_text;

#[test]
fn parses_https_and_ssh_github_repositories() {
    assert_eq!(
        github_repository_slug("https://github.com/example/project.git").unwrap(),
        "example/project"
    );
    assert_eq!(
        github_repository_slug("git@github.com:example/project").unwrap(),
        "example/project"
    );
}

#[test]
fn rejects_non_github_and_nested_paths() {
    assert!(github_repository_slug("https://example.com/owner/repo").is_err());
    assert!(github_repository_slug("https://github.com/owner/repo/issues").is_err());
}

#[test]
fn slug_edge_cases() {
    assert_eq!(github_repository_slug("  http://github.com/a/b/ \n").unwrap(), "a/b");
    assert_eq!(github_repository_slug("github.com/o.x/r_y-z.git.git//").unwrap(), "o.x/r_y-z");
    assert_eq!(github_repository_slug("github.com/o/r.git/").unwrap(), "o/r");
    assert_eq!(
        github_repository_slug("ftp://github.com/a/b"),
        Err("GitHub repository must use a github.com URL".to_string())
    );
    assert_eq!(
        github_repository_slug("https://github.com/owner"),
        Err("GitHub repository must identify exactly one owner and repository".to_string())
    );
    assert_eq!(
        github_repository_slug("https://github.com//repo"),
        Err("GitHub repository must identify exactly one owner and repository".to_string())
    );
    assert_eq!(
        github_repository_slug("https://github.com/ow ner/repo"),
        Err("GitHub repository contains unsupported characters".to_string())
    );
    assert_eq!(
        github_repository_slug("https://github.com/owner/ré"),
        Err("GitHub repository contains unsupported characters".to_string())
    );
}

#[test]
fn captain_messages_are_trimmed_and_bounded() {
    assert_eq!(
        captain_message(" m-1 ", "  hello captain\n"),
        Ok(("m-1".to_string(), "hello captain".to_string()))
    );
    assert_eq!(captain_message(" ", "x"), Err("message id must not be empty".to_string()));
    assert_eq!(captain_message("m", "\t"), Err("message must not be empty".to_string()));
    let longest = "é".repeat(16_000);
    assert!(captain_message("m", &longest).is_ok());
    let too_long = "é".repeat(16_001);
    assert_eq!(
        captain_message("m", &too_long),
        Err("message exceeds the 16,000 character limit".to_string())
    );
}

#[test]
fn staffing_briefs_are_trimmed_and_bounded() {
    assert_eq!(
        staffing_brief("b", " staff the ship "),
        Ok(("b".to_string(), "staff the ship".to_string()))
    );
    assert_eq!(
        staffing_brief("", "x"),
        Err("staffing brief id and prompt must not be empty".to_string())
    );
    assert_eq!(
        staffing_brief("b", &"x".repeat(16_001)),
        Err("staffing brief exceeds the 16,000 character limit".to_string())
    );
}

#[test]
fn write_authorization_decisions() {
    assert_eq!(
        github_write_target("github", "https://github.com/o/r"),
        Ok("o/r".to_string())
    );
    assert_eq!(
        github_write_target("gitlab", "https://github.com/o/r"),
        Err("write authorization is available only for the GitHub adapter".to_string())
    );
    assert_eq!(
        github_write_grant("octocat", "MAINTAIN"),
        Ok("gh-cli:github.com/octocat".to_string())
    );
    assert_eq!(
        github_write_grant("octocat", "READ"),
        Err("GitHub reports READ access for octocat; write access was not granted".to_string())
    );
    assert_eq!(api_response_text(" octocat\n"), Ok("octocat".to_string()));
    assert_eq!(
        api_response_text("  "),
        Err("GitHub API returned an empty response".to_string())
    );
}

#[test]
fn trimming_uses_unicode_whitespace() {
    assert_eq!(trim_text("\u{a0}\u{2003} x y \u{3000}\u{85}"), "x y");
    assert_eq!(trim_text("\u{200b}x"), "\u{200b}x");
}
