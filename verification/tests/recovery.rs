use muzzle::cleanup::{Listed, Moment};
use muzzle::recovery::{
    can_date, crash_recovery, prune_orphan_worktrees, star, Prune, Recovery, Stage,
};
use muzzle::session::{Answer, Effect, Question, Settings};
use muzzle::system::{Invocation, Outcome, Streams};

const NOW: Moment = Moment { secs: 1_700_000_000, nanos: 0 };

fn settings() -> Settings {
    Settings {
        workspace: b"/w".to_vec(),
        agent: "bot".to_string(),
        changelog_symlink: b"/w/.bot-changelog.md".to_vec(),
        pid_marker_dir: b"/p".to_vec(),
        changelog_prefix: ".bot-changelog-".to_string(),
        changelog_suffix: ".md".to_string(),
        trace_prefix: ".bot-trace-".to_string(),
        trace_suffix: ".log".to_string(),
        spec_file_prefix: ".bot-spec-".to_string(),
        spec_file_suffix: ".json".to_string(),
        stale_temp_dir_max_age_days: 7,
        stale_pid_marker_max_age_days: 1,
        stale_spec_file_max_age_days: 7,
        orphan_worktree_max_age_hours: 24,
        max_cleanup_iterations: 3,
    }
}

fn entry(name: &str, is_dir: bool) -> Listed {
    Listed {
        name: name.as_bytes().to_vec(),
        is_dir: Some(is_dir),
        modified: Some(Moment { secs: 0, nanos: 0 }),
    }
}

fn git(args: &[&str]) -> Invocation {
    Invocation {
        program: "git".to_string(),
        args: args.iter().map(|a| a.to_string()).collect(),
        env: None,
        dir: None,
        streams: Streams::Captured,
    }
}

fn ran(stdout: &str) -> Answer {
    Answer::Ran(Outcome::Exited {
        success: true,
        status: "exit status: 0".to_string(),
        stdout: stdout.as_bytes().to_vec(),
    })
}

fn gone() -> Answer {
    Answer::Ran(Outcome::NotStarted("gone".to_string()))
}

/// Runs recovery to its end: what it asked, and what it did.
fn recover(mut answer: impl FnMut(&Question) -> Answer) -> (Vec<Question>, Vec<Effect>) {
    let settings = settings();
    let (mut state, mut turn) = crash_recovery(&settings, "mine", Recovery::Begin, Answer::Yes);
    let mut asked = Vec::new();
    let mut done = Vec::new();
    loop {
        done.append(&mut turn.effects);
        let question = match turn.next.take() {
            Some(question) => question,
            None => return (asked, done),
        };
        let reply = answer(&question);
        asked.push(question);
        assert!(can_date(&settings, &state, &reply));
        let next = crash_recovery(&settings, "mine", state, reply);
        state = next.0;
        turn = next.1;
    }
}

fn prune(mut answer: impl FnMut(&Question) -> Answer) -> (usize, Vec<Question>, Vec<Effect>) {
    let settings = settings();
    let (mut state, mut turn) =
        prune_orphan_worktrees(&settings, "mine", Prune::Begin, Answer::Yes);
    let mut asked = Vec::new();
    let mut done = Vec::new();
    loop {
        done.append(&mut turn.effects);
        let question = match turn.next.take() {
            Some(question) => question,
            None => break,
        };
        let reply = answer(&question);
        asked.push(question);
        let next = prune_orphan_worktrees(&settings, "mine", state, reply);
        state = next.0;
        turn = next.1;
    }
    match state {
        Prune::Over(count) => (count, asked, done),
        _ => unreachable!(),
    }
}

#[test]
fn stages_come_in_order() {
    let (asked, done) = recover(|question| match question {
        Question::Elapsed => Answer::Seconds(0),
        Question::Entries { .. } => Answer::Entries(None, NOW),
        _ => unreachable!(),
    });
    assert_eq!(
        asked,
        vec![
            Question::Elapsed,
            Question::Entries { dir: b"/w/.bot-tmp".to_vec(), follow: false },
            Question::Elapsed,
            Question::Entries { dir: b"/p".to_vec(), follow: false },
            Question::Elapsed,
            Question::Entries { dir: b"/w".to_vec(), follow: true },
            Question::Elapsed,
            Question::Entries { dir: b"/w".to_vec(), follow: false },
        ]
    );
    assert_eq!(done, vec![]);
}

#[test]
fn each_stage_clears_away_its_own() {
    let (_, done) = recover(|question| match question {
        Question::Elapsed => Answer::Seconds(4),
        Question::Entries { dir, follow } => {
            if dir == b"/w/.bot-tmp" {
                Answer::Entries(Some(vec![entry("old", true), entry("by-pid", true)]), NOW)
            } else if dir == b"/p" {
                Answer::Entries(Some(vec![entry("17", false), entry("18", true)]), NOW)
            } else if *follow {
                Answer::Entries(
                    Some(vec![entry(".bot-spec-a.json", false), entry("repo", true)]),
                    NOW,
                )
            } else {
                Answer::Entries(Some(vec![]), NOW)
            }
        }
        _ => unreachable!(),
    });
    assert_eq!(
        done,
        vec![
            Effect::RemoveTree(b"/w/.bot-tmp/old".to_vec()),
            Effect::Remove(b"/p/17".to_vec()),
            Effect::Remove(b"/w/.bot-spec-a.json".to_vec()),
        ]
    );
}

#[test]
fn no_stage_begins_after_five_seconds() {
    let (asked, done) = recover(|_| Answer::Seconds(5));
    assert_eq!(
        asked,
        vec![Question::Elapsed, Question::Elapsed, Question::Elapsed, Question::Elapsed]
    );
    assert_eq!(done, vec![]);
}

#[test]
fn time_can_run_out_between_stages() {
    let mut seconds = 0;
    let (asked, done) = recover(|question| match question {
        Question::Elapsed => {
            seconds += 4;
            Answer::Seconds(seconds - 4)
        }
        _ => Answer::Entries(Some(vec![entry("x", true), entry("y", false)]), NOW),
    });
    assert_eq!(asked.len(), 6);
    assert_eq!(
        done,
        vec![
            Effect::RemoveTree(b"/w/.bot-tmp/x".to_vec()),
            Effect::Remove(b"/p/y".to_vec()),
        ]
    );
}

#[test]
fn stages_are_limited() {
    let (_, done) = recover(|question| match question {
        Question::Elapsed => Answer::Seconds(0),
        Question::Entries { dir, .. } => {
            if dir == b"/w/.bot-tmp" {
                Answer::Entries(
                    Some(vec![
                        entry("a", true),
                        entry("b", true),
                        entry("c", true),
                        entry("d", true),
                    ]),
                    NOW,
                )
            } else {
                Answer::Entries(None, NOW)
            }
        }
        _ => unreachable!(),
    });
    assert_eq!(done.len(), 3);
}

#[test]
fn moments_out_of_reach_are_told_apart() {
    let settings = settings();
    let early = Moment { secs: i64::MIN, nanos: 0 };
    let listing = || Answer::Entries(Some(vec![]), early);
    assert!(!can_date(&settings, &Recovery::Listing(Stage::Dirs), &listing()));
    assert!(!can_date(&settings, &Recovery::Listing(Stage::Markers), &listing()));
    assert!(!can_date(&settings, &Recovery::Listing(Stage::Specs), &listing()));
    assert!(!can_date(&settings, &Recovery::Pruning(Prune::Listing), &listing()));
    assert!(can_date(
        &settings,
        &Recovery::Listing(Stage::Dirs),
        &Answer::Entries(None, early)
    ));
    assert!(can_date(&settings, &Recovery::Begin, &listing()));
    assert!(can_date(
        &settings,
        &Recovery::Listing(Stage::Dirs),
        &Answer::Entries(Some(vec![]), NOW)
    ));
}

#[test]
fn pruning_walks_through_repositories() {
    let (count, asked, done) = prune(|question| match question {
        Question::Entries { dir, .. } => {
            if dir == b"/w" {
                Answer::Entries(
                    Some(vec![entry("notes", false), entry("plain", true), entry("repo", true)]),
                    NOW,
                )
            } else {
                Answer::Entries(
                    Some(vec![entry("aa", true), entry("mine", true), entry("bb", true)]),
                    NOW,
                )
            }
        }
        Question::Exists(p) => {
            if p == b"/w/repo/.git" {
                Answer::Yes
            } else {
                Answer::No
            }
        }
        Question::Run(i) => {
            if i.args.contains(&"--list".to_string()) {
                ran("  wt/aa\n  wt/bb\n")
            } else {
                ran("worktree /w/repo/.worktrees/bb\nbranch refs/heads/wt/bb\n")
            }
        }
        _ => unreachable!(),
    });
    let listing = ["-C", "/w/repo", "worktree", "list", "--porcelain"];
    assert_eq!(count, 1);
    assert_eq!(
        asked,
        vec![
            Question::Entries { dir: b"/w".to_vec(), follow: false },
            Question::Exists(b"/w/plain/.git".to_vec()),
            Question::Exists(b"/w/repo/.git".to_vec()),
            Question::Entries { dir: b"/w/repo/.worktrees".to_vec(), follow: false },
            Question::Run(git(&listing)),
            Question::Run(git(&["-C", "/w/repo", "branch", "--list", "wt/*"])),
            Question::Run(git(&listing)),
        ]
    );
    assert_eq!(
        done,
        vec![
            Effect::RemoveTree(b"/w/repo/.worktrees/aa".to_vec()),
            Effect::PruneStale(b"/w/repo".to_vec()),
            Effect::CleanEmptyDirs(b"/w/repo".to_vec()),
            Effect::Run(git(&["-C", "/w/repo", "branch", "-D", "wt/aa"])),
        ]
    );
}

#[test]
fn pruning_stops_at_its_limit() {
    let (count, _, done) = prune(|question| match question {
        Question::Entries { dir, .. } => {
            if dir == b"/w" {
                Answer::Entries(
                    Some(vec![entry("r1", true), entry("r2", true), entry("r3", true)]),
                    NOW,
                )
            } else {
                Answer::Entries(Some(vec![entry("aa", true), entry("bb", true)]), NOW)
            }
        }
        Question::Exists(_) => Answer::Yes,
        Question::Run(_) => gone(),
        _ => unreachable!(),
    });
    assert_eq!(count, 3);
    assert_eq!(
        done,
        vec![
            Effect::RemoveTree(b"/w/r1/.worktrees/aa".to_vec()),
            Effect::RemoveTree(b"/w/r1/.worktrees/bb".to_vec()),
            Effect::PruneStale(b"/w/r1".to_vec()),
            Effect::CleanEmptyDirs(b"/w/r1".to_vec()),
            Effect::RemoveTree(b"/w/r2/.worktrees/aa".to_vec()),
            Effect::PruneStale(b"/w/r2".to_vec()),
            Effect::CleanEmptyDirs(b"/w/r2".to_vec()),
        ]
    );
}

#[test]
fn repositories_without_worktrees_are_passed_over() {
    let (count, asked, done) = prune(|question| match question {
        Question::Entries { dir, .. } => {
            if dir == b"/w" {
                Answer::Entries(Some(vec![entry("repo", true)]), NOW)
            } else {
                Answer::Entries(None, NOW)
            }
        }
        _ => Answer::Yes,
    });
    assert_eq!(count, 0);
    assert_eq!(asked.len(), 3);
    assert_eq!(done, vec![]);
}

#[test]
fn listing_that_fails_spares_no_branch() {
    let mut listings = 0;
    let (_, _, done) = prune(|question| match question {
        Question::Entries { dir, .. } => {
            if dir == b"/w" {
                Answer::Entries(Some(vec![entry("repo", true)]), NOW)
            } else {
                Answer::Entries(Some(vec![]), NOW)
            }
        }
        Question::Exists(_) => Answer::Yes,
        Question::Run(i) => {
            if i.args.contains(&"--list".to_string()) {
                ran("  wt/aa\n")
            } else {
                listings += 1;
                gone()
            }
        }
        _ => unreachable!(),
    });
    assert_eq!(listings, 2);
    assert_eq!(
        done.last(),
        Some(&Effect::Run(git(&["-C", "/w/repo", "branch", "-D", "wt/aa"])))
    );
}

#[test]
fn star_patterns_have_a_prefix_and_a_suffix() {
    assert_eq!(star("a-", ".md"), "a-*.md");
}
