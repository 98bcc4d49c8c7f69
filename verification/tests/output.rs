use muzzle::output::{
    again_header, complain_of, emit_context, header, lost_header, output_worktree_paths,
};
use muzzle::session::SpecEntry;

fn entry(repo: &str, wt_path: &str, branch: &str) -> SpecEntry {
    SpecEntry {
        repo: repo.to_string(),
        wt_path: wt_path.to_string(),
        branch: branch.to_string(),
    }
}

#[test]
fn context_is_one_line_of_json() {
    assert_eq!(
        emit_context("hello"),
        "{\"hookSpecificOutput\":{\"additionalContext\":\"hello\",\"hookEventName\":\"SessionStart\"}}"
    );
}

#[test]
fn context_escapes_what_json_cannot_hold() {
    assert_eq!(
        emit_context("a\"b\\c\n\t\r\u{8}\u{c}\u{1}\u{1f}/\u{7f}\u{e9}\u{1f600}"),
        "{\"hookSpecificOutput\":{\"additionalContext\":\"a\\\"b\\\\c\\n\\t\\r\\b\\f\\u0001\\u001f/\u{7f}\u{e9}\u{1f600}\",\"hookEventName\":\"SessionStart\"}}"
    );
}

#[test]
fn context_is_told_in_one_line() {
    let mut text = String::new();
    for n in 0..128u8 {
        text.push(char::from(n));
    }
    assert!(emit_context(&text).chars().all(|c| c >= ' '));
}

#[test]
fn context_parses_back() {
    let mut text = String::new();
    for n in 0..0x3000u32 {
        if let Some(c) = char::from_u32(n) {
            text.push(c);
        }
    }
    let parsed: serde_json::Value = serde_json::from_str(&emit_context(&text)).unwrap();
    let output = &parsed["hookSpecificOutput"];
    assert_eq!(output["additionalContext"].as_str(), Some(text.as_str()));
    assert_eq!(output["hookEventName"].as_str(), Some("SessionStart"));
}

#[test]
fn worktrees_are_announced() {
    let line = output_worktree_paths(&[
        entry("app", "/w/app/.worktrees/ab", "wt/ab"),
        entry("lib", "/w/lib/.worktrees/ab", "wt/ab"),
    ])
    .unwrap();
    let parsed: serde_json::Value = serde_json::from_str(&line).unwrap();
    assert_eq!(
        parsed["hookSpecificOutput"]["additionalContext"].as_str(),
        Some(
            "\nActive worktrees for this session:\n  app: /w/app/.worktrees/ab (branch: wt/ab)\n  lib: /w/lib/.worktrees/ab (branch: wt/ab)\n\nUse these worktree paths for ALL file operations (reads, writes, git commands).\nDo NOT use the main checkout directly — use the worktree path above."
        )
    );
}

#[test]
fn no_worktrees_no_announcement() {
    assert_eq!(output_worktree_paths(&[]), None);
}

#[test]
fn headers_of_changelogs() {
    assert_eq!(
        header("2024-01-01 00:00:00", "abc"),
        "## Session: 2024-01-01 00:00:00 (abc)\n\n"
    );
    assert_eq!(
        lost_header("T", "abc"),
        "## Session: T (abc)\n\n> **Note**: Original changelog not found — created fresh on resume.\n\n"
    );
    assert_eq!(
        again_header("T", "abc", "compact"),
        "## Session: T (abc)\n\n> **Note**: Changelog recreated after compact.\n\n"
    );
}

#[test]
fn complaints_name_the_hook() {
    assert_eq!(
        complain_of("failed to register PID: ", "denied"),
        "muzzle/session-start: failed to register PID: denied"
    );
}
