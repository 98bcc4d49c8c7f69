use muzzle::cleanup::Moment;
use muzzle::output::emit_context;
use muzzle::session::{
    Answer, Effect, HookInput, Question, Session, Settings, SpecEntry, Turn,
};
use muzzle::start::{
    can_date, choose_handler, handle_clear_compact, handle_resume, handle_startup, run,
    update_symlink, Clear, Handler, Resume, Run, Startup,
};

const NOW: Moment = Moment { secs: 1_700_000_000, nanos: 0 };

fn settings() -> Settings {
    Settings {
        workspace: b"/w".to_vec(),
        agent: "bot".to_string(),
        changelog_symlink: b"/w/.bot-changelog.md".to_vec(),
        pid_marker_dir: b"/p".to_vec(),
        changelog_prefix: ".bot-changelog-".to_string(),
        changelog_suffix: ".md".to_string(),
        trace_prefix: ".bot-trace-".to_string(),
        trace_suffix: ".log".to_string(),
        spec_file_prefix: ".bot-spec-".to_string(),
        spec_file_suffix: ".json".to_string(),
        stale_temp_dir_max_age_days: 7,
        stale_pid_marker_max_age_days: 1,
        stale_spec_file_max_age_days: 7,
        orphan_worktree_max_age_hours: 24,
        max_cleanup_iterations: 50,
    }
}

fn session() -> Session {
    Session {
        id: "abcd".to_string(),
        short_id: "ab".to_string(),
        tmp_dir: b"/w/.bot-tmp/abcd".to_vec(),
        changelog_path: b"/w/.bot-changelog-abcd.md".to_vec(),
        changelog_gz_path: b"/w/.bot-changelog-abcd.md.gz".to_vec(),
        trace_path: b"/w/.bot-trace-abcd.log".to_vec(),
        trace_gz_path: b"/w/.bot-trace-abcd.log.gz".to_vec(),
    }
}

fn entry(repo: &str) -> SpecEntry {
    SpecEntry {
        repo: repo.to_string(),
        wt_path: format!("/w/{}/.worktrees/ab", repo),
        branch: "wt/ab".to_string(),
    }
}

fn announced(entries: &[SpecEntry]) -> Effect {
    Effect::Print(muzzle::output::output_worktree_paths(entries).unwrap())
}

fn log() -> Vec<u8> {
    b"/w/.bot-changelog-abcd.md".to_vec()
}

fn relinked() -> Vec<Effect> {
    vec![
        Effect::Remove(b"/w/.bot-changelog.md".to_vec()),
        Effect::Symlink {
            target: ".bot-changelog-abcd.md".to_string(),
            link: b"/w/.bot-changelog.md".to_vec(),
        },
    ]
}

fn names(all: &[&str]) -> Answer {
    Answer::Names(Some(all.iter().map(|n| n.as_bytes().to_vec()).collect()))
}

fn startup(mut answer: impl FnMut(&Question) -> Answer) -> (Startup, Vec<Question>, Vec<Effect>) {
    let (settings, session) = (settings(), session());
    let (mut state, mut turn) =
        handle_startup(&settings, &session, "T", Startup::Begin, Answer::Yes);
    let mut asked = Vec::new();
    let mut done = Vec::new();
    loop {
        done.append(&mut turn.effects);
        let question = match turn.next.take() {
            Some(question) => question,
            None => return (state, asked, done),
        };
        let reply = answer(&question);
        asked.push(question);
        let next = handle_startup(&settings, &session, "T", state, reply);
        state = next.0;
        turn = next.1;
    }
}

fn resume(mut answer: impl FnMut(&Question) -> Answer) -> (Resume, Vec<Question>, Vec<Effect>) {
    let (settings, session) = (settings(), session());
    let (mut state, mut turn) =
        handle_resume(&settings, &session, "T", Resume::Begin, Answer::Yes);
    let mut asked = Vec::new();
    let mut done = Vec::new();
    loop {
        done.append(&mut turn.effects);
        let question = match turn.next.take() {
            Some(question) => question,
            None => return (state, asked, done),
        };
        let reply = answer(&question);
        asked.push(question);
        let next = handle_resume(&settings, &session, "T", state, reply);
        state = next.0;
        turn = next.1;
    }
}

fn clear(mut answer: impl FnMut(&Question) -> Answer) -> (Vec<Question>, Vec<Effect>) {
    let (settings, session) = (settings(), session());
    let (mut state, mut turn) =
        handle_clear_compact(&settings, &session, "compact", "T", Clear::Begin, Answer::Yes);
    let mut asked = Vec::new();
    let mut done = Vec::new();
    loop {
        done.append(&mut turn.effects);
        let question = match turn.next.take() {
            Some(question) => question,
            None => {
                assert_eq!(state, Clear::Over);
                return (asked, done);
            }
        };
        let reply = answer(&question);
        asked.push(question);
        let next = handle_clear_compact(&settings, &session, "compact", "T", state, reply);
        state = next.0;
        turn = next.1;
    }
}

/// Runs the whole hook: its exit code, what it asked, and what it did.
fn hook(mut answer: impl FnMut(&Question) -> Answer) -> (u8, Vec<Question>, Vec<Effect>) {
    let settings = settings();
    let (mut state, mut turn) = run(&settings, Run::Begin, Answer::Yes);
    let mut asked = Vec::new();
    let mut done = Vec::new();
    loop {
        done.append(&mut turn.effects);
        let question = match turn.next.take() {
            Some(question) => question,
            None => break,
        };
        let reply = answer(&question);
        asked.push(question);
        assert!(can_date(&settings, &state, &reply));
        let next = run(&settings, state, reply);
        state = next.0;
        turn = next.1;
    }
    match state {
        Run::Over(code) => (code, asked, done),
        _ => unreachable!(),
    }
}

fn told(source: Option<&str>) -> Answer {
    Answer::Input(HookInput {
        session_id: Some("abcd".to_string()),
        source: source.map(|s| s.to_string()),
    })
}

fn ordinary(question: &Question, source: &str) -> Answer {
    match question {
        Question::InWorkspace => Answer::Yes,
        Question::Input => told(Some(source)),
        Question::Resolve(id) => {
            assert_eq!(id, "abcd");
            Answer::Session(session())
        }
        Question::Now => Answer::Seconds(0),
        Question::Running => Answer::Running(vec!["abcd".to_string()]),
        Question::Names(_) => Answer::Names(None),
        Question::Entries { .. } => Answer::Entries(None, NOW),
        Question::CreateWorktrees => Answer::Created(vec![]),
        Question::ReadSpec => Answer::Spec(None),
        Question::Elapsed => Answer::Seconds(0),
        _ => Answer::Yes,
    }
}

#[test]
fn link_is_made_anew() {
    let mut effects = vec![Effect::Complain("first".to_string())];
    update_symlink(&settings(), "abcd", &mut effects);
    assert_eq!(effects[1..], relinked()[..]);
    assert_eq!(effects.len(), 3);
}

#[test]
fn startup_sets_up_a_session() {
    let mut listings = 0;
    let (state, asked, done) = startup(|question| match question {
        Question::Running => Answer::Running(vec![]),
        Question::Names(_) => {
            listings += 1;
            if listings == 1 {
                names(&[".bot-changelog-old.md", ".bot-changelog-abcd.md", ".bot-trace-old.log"])
            } else {
                names(&[".bot-changelog-old.md.gz", ".bot-trace-old.log"])
            }
        }
        Question::CreateWorktrees => Answer::Created(vec![entry("app")]),
        _ => Answer::Yes,
    });
    assert_eq!(state, Startup::Over(true));
    assert_eq!(
        asked,
        vec![
            Question::Running,
            Question::Names(b"/w".to_vec()),
            Question::Names(b"/w".to_vec()),
            Question::Write(log(), "## Session: T (abcd)\n\n".to_string()),
            Question::CreateWorktrees,
            Question::SaveSpec(vec![entry("app")]),
        ]
    );
    let mut expected = vec![
        Effect::Gzip(b"/w/.bot-changelog-old.md".to_vec()),
        Effect::Gzip(b"/w/.bot-trace-old.log".to_vec()),
    ];
    expected.append(&mut relinked());
    expected.push(announced(&[entry("app")]));
    assert_eq!(done, expected);
}

#[test]
fn startup_without_worktrees() {
    let (state, asked, done) = startup(|question| match question {
        Question::Running => Answer::Running(vec![]),
        Question::Names(_) => Answer::Names(None),
        Question::CreateWorktrees => Answer::Created(vec![]),
        _ => Answer::Yes,
    });
    assert_eq!(state, Startup::Over(false));
    assert_eq!(asked.len(), 5);
    assert_eq!(done, relinked());
}

#[test]
fn running_sessions_keep_their_logs() {
    let (_, _, done) = startup(|question| match question {
        Question::Running => Answer::Running(vec!["alive".to_string()]),
        Question::Names(_) => names(&[
            ".bot-changelog-alive.md",
            ".bot-changelog-crashed.md",
            ".bot-changelog-abcd.md",
            ".bot-trace-alive.log",
            ".bot-trace-crashed.log",
        ]),
        Question::CreateWorktrees => Answer::Created(vec![]),
        _ => Answer::Yes,
    });
    let mut expected = vec![
        Effect::Gzip(b"/w/.bot-changelog-crashed.md".to_vec()),
        Effect::Gzip(b"/w/.bot-trace-crashed.log".to_vec()),
    ];
    expected.append(&mut relinked());
    assert_eq!(done, expected);
}

#[test]
fn separator_after_the_workspace_makes_no_difference() {
    let mut settings = settings();
    settings.workspace = b"/w/".to_vec();
    let (state, turn) = handle_startup(
        &settings,
        &session(),
        "T",
        Startup::Running,
        Answer::Running(vec!["alive".to_string()]),
    );
    assert_eq!(turn.next, Some(Question::Names(b"/w".to_vec())));
    let (_, turn) = handle_startup(
        &settings,
        &session(),
        "T",
        state,
        names(&[".bot-changelog-alive.md", ".bot-changelog-crashed.md"]),
    );
    assert_eq!(turn.effects, vec![Effect::Gzip(b"/w/.bot-changelog-crashed.md".to_vec())]);
}

#[test]
fn no_log_is_compressed_where_running_sessions_are_not_known() {
    let (state, asked, done) = startup(|question| match question {
        Question::Running => Answer::Failed("markers cannot be read".to_string()),
        Question::CreateWorktrees => Answer::Created(vec![entry("app")]),
        _ => Answer::Yes,
    });
    assert_eq!(state, Startup::Over(true));
    assert_eq!(
        asked,
        vec![
            Question::Running,
            Question::Write(log(), "## Session: T (abcd)\n\n".to_string()),
            Question::CreateWorktrees,
            Question::SaveSpec(vec![entry("app")]),
        ]
    );
    let mut expected = relinked();
    expected.push(announced(&[entry("app")]));
    assert_eq!(done, expected);
}

#[test]
fn failed_creation_blocks_the_session() {
    let (state, asked, done) = startup(|question| match question {
        Question::Running => Answer::Running(vec![]),
        Question::Names(_) => Answer::Names(None),
        Question::CreateWorktrees => Answer::Failed("no origin".to_string()),
        _ => Answer::Yes,
    });
    assert_eq!(state, Startup::Over(false));
    assert_eq!(asked.last(), Some(&Question::CreateWorktrees));
    let mut expected = relinked();
    expected.push(Effect::Append(
        log(),
        "\n### Worktree creation FAILED\n- Error: no origin\n- ALL repo writes will be blocked for this session\n"
            .to_string(),
    ));
    expected.push(Effect::Complain("muzzle/session-start: no origin".to_string()));
    expected.push(Effect::Print(emit_context(
        "\nWARNING: Worktree creation failed. All repo writes will be blocked.\nError: no origin",
    )));
    assert_eq!(done, expected);
}

#[test]
fn startup_complains_and_goes_on() {
    let (state, _, done) = startup(|question| match question {
        Question::Running => Answer::Running(vec![]),
        Question::Names(_) => Answer::Names(None),
        Question::CreateWorktrees => Answer::Created(vec![entry("app")]),
        _ => Answer::Failed("disk full".to_string()),
    });
    assert_eq!(state, Startup::Over(true));
    let mut expected = vec![Effect::Complain(
        "muzzle/session-start: failed to create changelog: disk full".to_string(),
    )];
    expected.append(&mut relinked());
    expected.push(Effect::Complain(
        "muzzle/session-start: failed to save spec file: disk full".to_string(),
    ));
    expected.push(announced(&[entry("app")]));
    assert_eq!(done, expected);
}

fn resumed() -> Vec<Effect> {
    let mut effects = vec![
        Effect::Unpack {
            gz_path: b"/w/.bot-trace-abcd.log.gz".to_vec(),
            dest_path: b"/w/.bot-trace-abcd.log".to_vec(),
        },
        Effect::Append(log(), "\n---\n### Session resumed: T\n".to_string()),
    ];
    effects.append(&mut relinked());
    effects
}

#[test]
fn resume_restores_worktrees() {
    let (state, asked, done) = resume(|question| match question {
        Question::ReadSpec => Answer::Spec(Some(vec![entry("app"), entry("lib")])),
        Question::RestoreWorktrees(_) => {
            Answer::Restored(vec![entry("lib")], vec!["app is gone".to_string()])
        }
        _ => Answer::Yes,
    });
    assert_eq!(state, Resume::Over(true));
    assert_eq!(
        asked,
        vec![
            Question::RestoreLog {
                gz_path: b"/w/.bot-changelog-abcd.md.gz".to_vec(),
                log_path: log(),
            },
            Question::ReadSpec,
            Question::RestoreWorktrees(vec![entry("app"), entry("lib")]),
        ]
    );
    let mut expected = resumed();
    expected.push(Effect::Append(
        log(),
        "\n### Worktree restore warning\n- app is gone\n".to_string(),
    ));
    expected.push(Effect::SaveSpec(vec![entry("lib")]));
    expected.push(announced(&[entry("lib")]));
    assert_eq!(done, expected);
}

#[test]
fn resume_without_a_changelog_writes_one() {
    let (state, _, done) = resume(|question| match question {
        Question::ReadSpec => Answer::Spec(None),
        _ => Answer::No,
    });
    assert_eq!(state, Resume::Over(false));
    let mut expected = vec![Effect::Write(
        log(),
        "## Session: T (abcd)\n\n> **Note**: Original changelog not found — created fresh on resume.\n\n"
            .to_string(),
    )];
    expected.append(&mut resumed());
    assert_eq!(done, expected);
}

#[test]
fn resume_with_nothing_to_restore() {
    let (state, asked, done) = resume(|question| match question {
        Question::ReadSpec => Answer::Spec(Some(vec![])),
        _ => Answer::Yes,
    });
    assert_eq!(state, Resume::Over(false));
    assert_eq!(asked.len(), 2);
    assert_eq!(done, resumed());
}

#[test]
fn resume_that_restores_nothing_records_nothing() {
    let (state, _, done) = resume(|question| match question {
        Question::ReadSpec => Answer::Spec(Some(vec![entry("app")])),
        Question::RestoreWorktrees(_) => Answer::Restored(vec![], vec!["e".to_string()]),
        _ => Answer::Yes,
    });
    assert_eq!(state, Resume::Over(false));
    let mut expected = resumed();
    expected.push(Effect::Append(log(), "\n### Worktree restore warning\n- e\n".to_string()));
    assert_eq!(done, expected);
}

#[test]
fn only_existing_worktrees_are_announced() {
    let (asked, done) = clear(|question| match question {
        Question::ReadSpec => Answer::Spec(Some(vec![entry("a"), entry("b"), entry("c")])),
        Question::WhichExist(_) => Answer::Which(vec![true, false, true]),
        _ => Answer::Yes,
    });
    assert_eq!(
        asked,
        vec![
            Question::Exists(log()),
            Question::ReadSpec,
            Question::WhichExist(vec![
                "/w/a/.worktrees/ab".to_string(),
                "/w/b/.worktrees/ab".to_string(),
                "/w/c/.worktrees/ab".to_string(),
            ]),
        ]
    );
    let mut expected = relinked();
    expected.push(announced(&[entry("a"), entry("c")]));
    assert_eq!(done, expected);
}

#[test]
fn no_existing_worktree_no_announcement() {
    let (_, done) = clear(|question| match question {
        Question::ReadSpec => Answer::Spec(Some(vec![entry("a")])),
        Question::WhichExist(_) => Answer::Which(vec![false]),
        _ => Answer::Yes,
    });
    assert_eq!(done, relinked());
}

#[test]
fn changelog_is_written_again_after_a_compaction() {
    let (asked, done) = clear(|question| match question {
        Question::ReadSpec => Answer::Spec(None),
        _ => Answer::No,
    });
    assert_eq!(asked.len(), 3);
    let mut expected = vec![Effect::Write(
        log(),
        "## Session: T (abcd)\n\n> **Note**: Changelog recreated after compact.\n\n".to_string(),
    )];
    expected.append(&mut relinked());
    assert_eq!(done, expected);
}

#[test]
fn changelog_is_restored_after_a_clear() {
    let (_, done) = clear(|question| match question {
        Question::Exists(_) => Answer::No,
        Question::ReadSpec => Answer::Spec(None),
        _ => Answer::Yes,
    });
    assert_eq!(done, relinked());
}

#[test]
fn sources_choose_handlers() {
    assert_eq!(choose_handler("startup"), Handler::Startup(Startup::Begin));
    assert_eq!(choose_handler("resume"), Handler::Resume(Resume::Begin));
    assert_eq!(choose_handler("clear"), Handler::Clear(Clear::Begin));
    assert_eq!(choose_handler("compact"), Handler::Clear(Clear::Begin));
    assert_eq!(choose_handler("something else"), Handler::Startup(Startup::Begin));
    assert_eq!(choose_handler(""), Handler::Startup(Startup::Begin));
}

#[test]
fn hook_is_idle_outside_the_workspace() {
    let (code, asked, done) = hook(|_| Answer::No);
    assert_eq!(code, 0);
    assert_eq!(asked, vec![Question::InWorkspace]);
    assert_eq!(done, vec![]);
}

#[test]
fn input_that_cannot_be_read_fails() {
    let (code, _, done) = hook(|question| match question {
        Question::InWorkspace => Answer::Yes,
        _ => Answer::Failed("stream did not contain valid UTF-8".to_string()),
    });
    assert_eq!(code, 1);
    assert_eq!(
        done,
        vec![Effect::Complain(
            "muzzle/session-start: failed to read stdin: stream did not contain valid UTF-8"
                .to_string()
        )]
    );
}

#[test]
fn input_that_is_no_json_fails() {
    let (code, _, done) = hook(|question| match question {
        Question::InWorkspace => Answer::Yes,
        _ => Answer::Malformed("EOF while parsing".to_string()),
    });
    assert_eq!(code, 1);
    assert_eq!(
        done,
        vec![Effect::Complain(
            "muzzle/session-start: failed to parse JSON: EOF while parsing".to_string()
        )]
    );
}

#[test]
fn hook_goes_from_startup_to_recovery() {
    let (code, asked, done) = hook(|question| ordinary(question, "startup"));
    assert_eq!(code, 0);
    assert_eq!(
        asked[..11],
        [
            Question::InWorkspace,
            Question::Input,
            Question::Resolve("abcd".to_string()),
            Question::Now,
            Question::RegisterPid("abcd".to_string()),
            Question::MakeDirs(b"/w/.bot-tmp/abcd".to_vec()),
            Question::Running,
            Question::Names(b"/w".to_vec()),
            Question::Names(b"/w".to_vec()),
            Question::Write(log(), "## Session: 1970-01-01 00:00:00 (abcd)\n\n".to_string()),
            Question::CreateWorktrees,
        ]
    );
    assert_eq!(asked[11], Question::Elapsed);
    assert_eq!(asked.len(), 19);
    assert_eq!(done, relinked());
}

#[test]
fn unknown_source_is_a_startup() {
    let (_, asked, done) = hook(|question| ordinary(question, "elsewhere"));
    let (_, asked_on_startup, done_on_startup) = hook(|question| ordinary(question, "startup"));
    assert_eq!(asked, asked_on_startup);
    assert_eq!(done, done_on_startup);
}

#[test]
fn missing_input_has_defaults() {
    let mut resolved = String::new();
    let (_, asked, _) = hook(|question| match question {
        Question::Input => Answer::Input(HookInput { session_id: None, source: None }),
        Question::Resolve(id) => {
            resolved = id.clone();
            Answer::Session(session())
        }
        other => ordinary(other, ""),
    });
    assert_eq!(resolved, "unknown");
    assert!(asked.contains(&Question::RegisterPid("unknown".to_string())));
    assert!(asked.contains(&Question::CreateWorktrees));
}

#[test]
fn hook_complains_of_markers_and_directories_and_goes_on() {
    let (code, _, done) = hook(|question| match question {
        Question::RegisterPid(_) => Answer::Failed("denied".to_string()),
        Question::MakeDirs(_) => Answer::Failed("full".to_string()),
        other => ordinary(other, "startup"),
    });
    assert_eq!(code, 0);
    let mut expected = vec![
        Effect::Complain("muzzle/session-start: failed to register PID: denied".to_string()),
        Effect::Complain("muzzle/session-start: failed to create temp dir: full".to_string()),
    ];
    expected.append(&mut relinked());
    assert_eq!(done, expected);
}

#[test]
fn hook_resumes_and_recovers() {
    let (code, asked, _) = hook(|question| ordinary(question, "resume"));
    assert_eq!(code, 0);
    assert!(matches!(asked[6], Question::RestoreLog { .. }));
    assert_eq!(asked[7], Question::ReadSpec);
    assert_eq!(asked[8], Question::Elapsed);
}

#[test]
fn hook_goes_on_after_a_clear_and_recovers() {
    let (code, asked, done) = hook(|question| ordinary(question, "clear"));
    assert_eq!(code, 0);
    assert_eq!(asked[6], Question::Exists(log()));
    assert_eq!(asked[7], Question::ReadSpec);
    assert_eq!(asked[8], Question::Elapsed);
    assert_eq!(done, relinked());
}

#[test]
fn hook_that_is_over_stays_over() {
    assert_eq!(
        run(&settings(), Run::Over(1), Answer::Yes),
        (Run::Over(1), Turn { effects: vec![], next: None })
    );
}
