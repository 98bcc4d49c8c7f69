use muzzle::text::{
    contains, find_from, is_white_space, join, lines, push_padded, same_text, split, strip_prefix,
    to_chars, trim, trim_end_matches,
};

const SAMPLES: [&str; 14] = [
    "",
    "\n",
    "\r\n",
    "a",
    "a\n",
    "a\nb",
    "a\r\nb\r\n",
    "a\n\nb",
    "\n\n",
    "a\r",
    "a\r\r\nb",
    "  a b  ",
    "\u{a0}\u{2003}x\u{85}",
    "ä/ö//",
];

#[test]
fn lines_end_at_line_feeds() {
    for s in SAMPLES {
        let expected: Vec<String> = s.lines().map(|l| l.to_string()).collect();
        assert_eq!(lines(s), expected);
    }
    assert_eq!(lines("a\r\nb\n"), vec!["a".to_string(), "b".to_string()]);
    assert_eq!(lines("a\r"), vec!["a\r".to_string()]);
}

#[test]
fn white_space_is_that_of_unicode() {
    for n in 0..=0x10ffffu32 {
        if let Some(c) = char::from_u32(n) {
            assert_eq!(is_white_space(c), c.is_whitespace());
        }
    }
}

#[test]
fn trimming_takes_white_space_off_both_ends() {
    for s in SAMPLES {
        assert_eq!(trim(s), s.trim());
    }
    assert_eq!(trim(" \t a b \r\n"), "a b");
}

#[test]
fn trimming_slashes_off_the_end() {
    for s in SAMPLES {
        assert_eq!(trim_end_matches(s, '/'), s.trim_end_matches('/'));
    }
    assert_eq!(trim_end_matches("/a/b//", '/'), "/a/b");
    assert_eq!(trim_end_matches("///", '/'), "");
}

#[test]
fn searching_for_text() {
    for hay in SAMPLES {
        for needle in ["", "a", "b", "a\n", "/", "//", "ö/", "xyz"] {
            assert_eq!(contains(hay, needle), hay.contains(needle));
        }
    }
    assert_eq!(find_from(&to_chars("abcabc"), &to_chars("bc"), 2), Some(4));
    assert_eq!(find_from(&to_chars("abcabc"), &to_chars("bc"), 5), None);
}

#[test]
fn stripping_a_prefix() {
    assert_eq!(strip_prefix("worktree /w", "worktree "), Some("/w".to_string()));
    assert_eq!(strip_prefix("worktree", "worktree "), None);
    assert_eq!(strip_prefix("", ""), Some("".to_string()));
}

#[test]
fn splitting_at_a_separator() {
    for s in ["", "*", "a*b", "*a**b*", "plain"] {
        let expected: Vec<Vec<char>> = s.split('*').map(|p| p.chars().collect()).collect();
        assert_eq!(split(s, '*'), expected);
    }
}

#[test]
fn joining_with_a_separator() {
    assert_eq!(join(&["a", "b", "c"], " "), "a b c");
    assert_eq!(join(&["a"], " "), "a");
    assert_eq!(join(&[], " "), "");
}

#[test]
fn padding_numbers() {
    let mut s = String::from("n=");
    push_padded(&mut s, 7, 2);
    push_padded(&mut s, 123, 2);
    push_padded(&mut s, 0, 4);
    assert_eq!(s, "n=071230000");
}

#[test]
fn comparing_text() {
    assert!(same_text("resume", "resume"));
    assert!(!same_text("resume", "Resume"));
}
