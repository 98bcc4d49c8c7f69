use muzzle::cleanup::{
    clean_orphaned_wt_branches, clean_stale_dirs, clean_stale_files, clean_stale_glob,
    find_orphans, go_back, stale_in, Listed, Moment,
};

const DAY: i64 = 86_400;
const NOW: Moment = Moment { secs: 1_700_000_000, nanos: 500 };

fn at(secs: i64, nanos: u32) -> Option<Moment> {
    Some(Moment { secs, nanos })
}

fn dir(name: &str, modified: Option<Moment>) -> Listed {
    Listed { name: name.as_bytes().to_vec(), is_dir: Some(true), modified }
}

fn file(name: &str, modified: Option<Moment>) -> Listed {
    Listed { name: name.as_bytes().to_vec(), is_dir: Some(false), modified }
}

fn texts(paths: Vec<Vec<u8>>) -> Vec<String> {
    paths.into_iter().map(|p| String::from_utf8(p).unwrap()).collect()
}

#[test]
fn going_back_in_time() {
    assert_eq!(go_back(&NOW, 500), Moment { secs: 1_699_999_500, nanos: 500 });
    assert_eq!(
        go_back(&Moment { secs: -5, nanos: 1 }, 10),
        Moment { secs: -15, nanos: 1 }
    );
}

#[test]
fn stale_directories_go() {
    let old = at(NOW.secs - 8 * DAY, 0);
    let entries = [
        dir("one", old),
        dir("by-pid", old),
        file("two", old),
        dir("three", at(NOW.secs, 0)),
        dir("four", None),
        Listed { name: b"five".to_vec(), is_dir: None, modified: old },
        dir("six", old),
    ];
    assert_eq!(
        texts(clean_stale_dirs(b"/t", Some(&entries), &NOW, 7, 100)),
        vec!["/t/one", "/t/six"]
    );
}

#[test]
fn cutoff_itself_is_not_stale() {
    let cutoff = NOW.secs - 7 * DAY;
    let entries = [
        dir("at", at(cutoff, 500)),
        dir("before", at(cutoff, 499)),
        dir("after", at(cutoff, 501)),
    ];
    assert_eq!(texts(clean_stale_dirs(b"/t", Some(&entries), &NOW, 7, 100)), vec!["/t/before"]);
}

#[test]
fn clean_up_stops_at_its_limit() {
    let old = at(0, 0);
    let entries = [dir("a", old), dir("b", old), dir("c", old)];
    assert_eq!(
        texts(clean_stale_dirs(b"/t", Some(&entries), &NOW, 1, 2)),
        vec!["/t/a", "/t/b"]
    );
    assert_eq!(clean_stale_dirs(b"/t", Some(&entries), &NOW, 1, 0).len(), 0);
}

#[test]
fn unreadable_directory_has_nothing_stale() {
    assert_eq!(clean_stale_dirs(b"/t", None, &NOW, u64::MAX, 100).len(), 0);
    assert_eq!(clean_stale_files(b"/t", None, &NOW, u64::MAX, 100).len(), 0);
    assert_eq!(clean_stale_glob(b"/t", "*", None, &NOW, u64::MAX, 100).len(), 0);
}

#[test]
fn stale_files_go_and_directories_stay() {
    let old = at(NOW.secs - 2 * DAY, 0);
    let entries = [
        file("1", old),
        dir("2", old),
        file("3", at(NOW.secs, 0)),
        file("4", None),
        Listed { name: b"5".to_vec(), is_dir: None, modified: old },
        file("6", old),
    ];
    assert_eq!(
        texts(clean_stale_files(b"/p", Some(&entries), &NOW, 1, 100)),
        vec!["/p/1", "/p/6"]
    );
    assert_eq!(texts(clean_stale_files(b"/p", Some(&entries), &NOW, 1, 1)), vec!["/p/1"]);
}

#[test]
fn stale_matches_go() {
    let old = at(NOW.secs - 8 * DAY, 0);
    let entries = [
        file("spec-a.json", old),
        file("spec-b.json", at(NOW.secs, 0)),
        file("other", old),
        file("spec-c.json", None),
        file("spec-d.json", old),
    ];
    assert_eq!(
        texts(clean_stale_glob(b"/w", "spec-*.json", Some(&entries), &NOW, 7, 100)),
        vec!["/w/spec-a.json", "/w/spec-d.json"]
    );
    assert_eq!(
        texts(clean_stale_glob(b"/w", "spec-*.json", Some(&entries), &NOW, 7, 1)),
        vec!["/w/spec-a.json"]
    );
    assert_eq!(clean_stale_glob(b"/w", "spec-*.json", None, &NOW, 7, 100).len(), 0);
    assert_eq!(
        texts(stale_in("/w", "spec-*.json", &entries, &NOW, 100)),
        vec!["/w/spec-a.json", "/w/spec-b.json", "/w/spec-d.json"]
    );
}

#[test]
fn only_orphans_are_removed() {
    let cutoff = Moment { secs: 1000, nanos: 0 };
    let old = at(999, 0);
    let entries = [
        dir("orphan", old),
        dir("mine", old),
        dir("active", old),
        dir("fresh", at(1000, 0)),
        file("file", old),
        dir("undated", None),
        dir("second", old),
    ];
    let active = vec!["/r".to_string(), "/r/.worktrees/active/".to_string()];
    assert_eq!(
        texts(find_orphans(b"/r/.worktrees", &entries, &active, "mine", &cutoff, 100)),
        vec!["/r/.worktrees/orphan", "/r/.worktrees/second"]
    );
    assert_eq!(
        texts(find_orphans(b"/r/.worktrees", &entries, &active, "mine", &cutoff, 1)),
        vec!["/r/.worktrees/orphan"]
    );
}

#[test]
fn branches_without_a_worktree_go() {
    let branches = "  wt/a\n  wt/b\n\n   \n  wt/c\n";
    let listing = "worktree /r/.worktrees/b\nHEAD 12\nbranch refs/heads/wt/b\n\n";
    assert_eq!(clean_orphaned_wt_branches(branches, listing), vec!["wt/a", "wt/c"]);
    assert_eq!(clean_orphaned_wt_branches("", listing), Vec::<String>::new());
    assert_eq!(clean_orphaned_wt_branches(branches, ""), vec!["wt/a", "wt/b", "wt/c"]);
}

#[test]
fn branches_are_compared_by_the_text_of_the_listing() {
    // A checked-out branch also spares those whose names it starts with.
    let listing = "branch refs/heads/wt/abc\n";
    assert_eq!(
        clean_orphaned_wt_branches("  wt/ab\n  wt/abcd\n", listing),
        vec!["wt/abcd"]
    );
    // A mark before the name is taken for a part of it.
    assert_eq!(clean_orphaned_wt_branches("+ wt/abc\n", listing), vec!["+ wt/abc"]);
}
