use muzzle::glob::{glob_dir, glob_in, glob_matches, matches_name};

fn names(all: &[&str]) -> Vec<Vec<u8>> {
    all.iter().map(|n| n.as_bytes().to_vec()).collect()
}

#[test]
fn stars_stand_for_anything() {
    assert!(matches_name("log-*.md", "log-abc.md"));
    assert!(matches_name("log-*.md", "log-.md"));
    assert!(!matches_name("log-*.md", "log-abc.md.gz"));
    assert!(!matches_name("log-*.md", "xlog-abc.md"));
    assert!(matches_name("*", ""));
    assert!(matches_name("*", "anything"));
    assert!(matches_name("a*b*c", "aXbYc"));
    assert!(!matches_name("a*b*c", "aXcYb"));
}

#[test]
fn prefix_and_suffix_do_not_overlap() {
    assert!(!matches_name("aba*ba", "aba"));
    assert!(matches_name("aba*ba", "ababa"));
    assert!(!matches_name("log-*-log", "log-log"));
}

#[test]
fn patterns_without_stars_are_both_prefix_and_suffix() {
    assert!(matches_name("abc", "abc"));
    assert!(matches_name("aba", "ababa"));
    assert!(!matches_name("abc", "abcd"));
    assert!(matches_name("", "anything"));
}

#[test]
fn names_are_compared_by_characters() {
    assert!(matches_name("ä*ö", "äxö"));
    assert!(!matches_name("ä*ö", "axo"));
}

#[test]
fn directory_of_a_pattern() {
    assert_eq!(glob_dir("/w/log-*.md"), b"/w".to_vec());
    assert_eq!(glob_dir("log-*.md"), b"".to_vec());
    assert_eq!(glob_dir("/"), b".".to_vec());
    assert_eq!(glob_dir("/log-*.md"), b"/".to_vec());
    assert_eq!(glob_dir("a/b//c"), b"a/b".to_vec());
}

#[test]
fn matching_entries_of_a_directory() {
    let listing = names(&["log-1.md", "other", "log-2.md", "log-3.md.gz"]);
    assert_eq!(
        glob_matches("/w/log-*.md", Some(&listing)),
        Ok(names(&["/w/log-1.md", "/w/log-2.md"]))
    );
    assert_eq!(glob_matches("/w/log-*.md", Some(&[])), Ok(vec![]));
}

#[test]
fn matching_entries_of_the_current_directory_and_of_the_root() {
    let listing = names(&["log-1.md", "other"]);
    assert_eq!(glob_matches("log-*.md", Some(&listing)), Ok(names(&["log-1.md"])));
    assert_eq!(glob_matches("/log-*.md", Some(&listing)), Ok(names(&["/log-1.md"])));
}

#[test]
fn unreadable_directory_is_an_error() {
    assert_eq!(glob_matches("/w/log-*.md", None), Err(()));
}

#[test]
fn pattern_without_a_name_matches_all() {
    // The last part of the pattern leads elsewhere, so names are held to nothing.
    assert_eq!(
        glob_matches("/w/..", Some(&names(&["a", "b"]))),
        Ok(names(&["/w/a", "/w/b"]))
    );
}

#[test]
fn names_that_are_no_text() {
    let listing: Vec<Vec<u8>> = vec![b"log-\xff.md".to_vec()];
    assert_eq!(glob_in("/w", "log-*.md", &listing), vec![b"/w/log-\xff.md".to_vec()]);
    assert_eq!(glob_in("/w", "log-\u{fffd}.md", &listing), vec![b"/w/log-\xff.md".to_vec()]);
}
