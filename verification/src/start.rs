//! The session-start hook: what it does for a session that starts, is resumed, or
//! goes on after its context was cleared or compacted.
//!
//! Each function takes the state that its last call gave and the answer to what
//! that call asked for.

use vstd::prelude::*;
use vstd::utf8;

use crate::archive;
use crate::calendar;
use crate::glob;
use crate::output;
use crate::path;
use crate::recovery;
use crate::recovery::Recovery;
use crate::recovery::RecoveryView;
use crate::session;
use crate::session::Answer;
use crate::session::AnswerView;
use crate::session::Effect;
use crate::session::EffectView;
use crate::session::HookInput;
use crate::session::Question;
use crate::session::QuestionView;
use crate::session::Session;
use crate::session::SessionView;
use crate::session::Settings;
use crate::session::SettingsView;
use crate::session::SpecEntry;
use crate::session::SpecEntryView;
use crate::session::Turn;
use crate::session::TurnView;
use crate::text;

verus! {

// ---------------------------------------------------------------------------
// Shared pieces
// ---------------------------------------------------------------------------

/// The complaint about what failed, if it did.
pub open spec fn complaint_if(answer: AnswerView, what: Seq<char>) -> Seq<EffectView> {
    match answer {
        AnswerView::Failed(why) => seq![EffectView::Complain(output::complaint(what + why))],
        _ => Seq::empty(),
    }
}

/// The link to the latest changelog is made anew.
pub open spec fn relink(settings: SettingsView, id: Seq<char>) -> Seq<EffectView> {
    seq![
        EffectView::Remove(settings.changelog_symlink),
        EffectView::Symlink {
            target: output::symlink_target(settings.agent, id),
            link: settings.changelog_symlink,
        },
    ]
}

/// The announcement of worktrees, if there are any.
pub open spec fn announcement(entries: Seq<SpecEntryView>) -> Seq<EffectView> {
    if entries.len() == 0 {
        Seq::empty()
    } else {
        seq![EffectView::Print(output::context_line(output::worktrees_text(entries)))]
    }
}

/// The complaint about what failed, if it did.
fn complain_if(answer: &Answer, what: &str) -> (effects: Vec<Effect>)
    ensures
        effects.deep_view() == complaint_if(answer.deep_view(), what@),
{
    let mut effects: Vec<Effect> = session::no_effects();
    if let Answer::Failed(why) = answer {
        let line = output::complain_of(what, why.as_str());
        session::add_effect(&mut effects, Effect::Complain(line));
        assert(effects.deep_view() =~= complaint_if(answer.deep_view(), what@));
    }
    effects
}

/// Update the convenience link to the latest changelog.
pub fn update_symlink(settings: &Settings, session_id: &str, effects: &mut Vec<Effect>)
    ensures
        final(effects).deep_view() == old(effects).deep_view() + relink(
            settings.deep_view(),
            session_id@,
        ),
{
    let ghost before = effects.deep_view();
    let mut target = output::concat3(".", settings.agent.as_str(), "-changelog-");
    target.append(session_id);
    target.append(".md");
    session::add_effect(
        effects,
        Effect::Remove(path::copy_of(settings.changelog_symlink.as_slice())),
    );
    session::add_effect(
        effects,
        Effect::Symlink { target, link: path::copy_of(settings.changelog_symlink.as_slice()) },
    );
    assert(effects.deep_view() =~= before + relink(settings.deep_view(), session_id@));
}

/// Announce worktrees, if there are any.
fn add_announcement(entries: &[SpecEntry], effects: &mut Vec<Effect>)
    ensures
        final(effects).deep_view() == old(effects).deep_view() + announcement(
            entries.deep_view(),
        ),
{
    let ghost before = effects.deep_view();
    if let Some(line) = output::output_worktree_paths(entries) {
        session::add_effect(effects, Effect::Print(line));
    }
    assert(effects.deep_view() =~= before + announcement(entries.deep_view()));
}

/// A copy of each entry.
fn copy_entries(entries: &[SpecEntry]) -> (copies: Vec<SpecEntry>)
    ensures
        copies.deep_view() == entries.deep_view(),
{
    let mut copies: Vec<SpecEntry> = Vec::new();
    let mut i: usize = 0;
    while i < entries.len()
        invariant
            i <= entries@.len(),
            copies@.len() == i,
            forall|j: int|
                0 <= j < i ==> (#[trigger] copies@[j]).deep_view() == entries@[j].deep_view(),
        decreases entries.len() - i,
    {
        let e = &entries[i];
        copies.push(
            SpecEntry {
                repo: e.repo.clone(),
                wt_path: e.wt_path.clone(),
                branch: e.branch.clone(),
            },
        );
        i = i + 1;
    }
    assert(copies.deep_view() =~= entries.deep_view());
    copies
}

// ---------------------------------------------------------------------------
// Startup
// ---------------------------------------------------------------------------

/// How far the setting up of a new session has come: what was asked for last.
#[derive(Debug, PartialEq, Eq)]
pub enum Startup {
    Begin,
    /// Which sessions are running.
    Running,
    /// The names among which leftover changelogs are. Those of these sessions stay.
    Changelogs(Vec<String>),
    /// The names among which leftover traces are. Those of these sessions stay.
    Traces(Vec<String>),
    /// To write the changelog.
    Header,
    /// To create worktrees.
    Creating,
    /// To record these worktrees.
    Saving(Vec<SpecEntry>),
    /// All is done; whether the session has worktrees.
    Over(bool),
}

/// The model of a [`Startup`].
pub enum StartupView {
    Begin,
    Running,
    Changelogs(Seq<Seq<char>>),
    Traces(Seq<Seq<char>>),
    Header,
    Creating,
    Saving(Seq<SpecEntryView>),
    Over(bool),
}

impl DeepView for Startup {
    type V = StartupView;

    open spec fn deep_view(&self) -> StartupView {
        match self {
            Startup::Begin => StartupView::Begin,
            Startup::Running => StartupView::Running,
            Startup::Changelogs(spared) => StartupView::Changelogs(spared.deep_view()),
            Startup::Traces(spared) => StartupView::Traces(spared.deep_view()),
            Startup::Header => StartupView::Header,
            Startup::Creating => StartupView::Creating,
            Startup::Saving(entries) => StartupView::Saving(entries.deep_view()),
            Startup::Over(active) => StartupView::Over(*active),
        }
    }
}

/// The pattern that files of sessions in the workspace match, written out.
pub open spec fn log_pattern(
    settings: SettingsView,
    prefix: Seq<char>,
    suffix: Seq<char>,
) -> Seq<char> {
    archive::full_pattern(settings.workspace, recovery::star_pattern(prefix, suffix))
}

/// The question for the names in the directory that a pattern looks in.
pub open spec fn names_for(pattern: Seq<char>) -> QuestionView {
    QuestionView::Names(utf8::encode_utf8(glob::pattern_dir(pattern)))
}

/// The compression of the leftover files among `answer` that match `pattern`; those of
/// the sessions `spared` stay.
pub open spec fn gzips(
    pattern: Seq<char>,
    spared: Seq<Seq<char>>,
    answer: AnswerView,
) -> Seq<EffectView> {
    match answer {
        AnswerView::Names(Some(names)) => archive::leftovers(
            glob::pattern_dir(pattern),
            glob::pattern_name(pattern),
            spared,
            names,
        ).map_values(|p: Seq<u8>| EffectView::Gzip(p)),
        _ => Seq::empty(),
    }
}

/// What is done when worktrees could not be created: nothing falls back to the main
/// checkout, and the session is told that its writes will be blocked.
pub open spec fn blocked(session: SessionView, error: Seq<char>) -> Seq<EffectView> {
    seq![
        EffectView::Append(session.changelog_path, output::creation_failure(error)),
        EffectView::Complain(output::complaint(error)),
        EffectView::Print(output::context_line(output::blocked_warning(error))),
    ]
}

/// The question to begin the changelog of a session.
pub open spec fn header_question(session: SessionView, timestamp: Seq<char>) -> QuestionView {
    QuestionView::Write(session.changelog_path, output::header_text(timestamp, session.id))
}

/// The setting up of a new session. Leftover logs are compressed only once it is known
/// which sessions are running.
pub open spec fn startup_step(
    settings: SettingsView,
    session: SessionView,
    timestamp: Seq<char>,
    state: StartupView,
    answer: AnswerView,
) -> (StartupView, TurnView) {
    let changelogs = log_pattern(settings, settings.changelog_prefix, settings.changelog_suffix);
    let traces = log_pattern(settings, settings.trace_prefix, settings.trace_suffix);
    match (state, answer) {
        (StartupView::Begin, _) => (
            StartupView::Running,
            session::asking(QuestionView::Running),
        ),
        (StartupView::Running, AnswerView::Running(ids)) => (
            StartupView::Changelogs(ids.push(session.id)),
            session::asking(names_for(changelogs)),
        ),
        (StartupView::Running, _) => (
            StartupView::Header,
            session::asking(header_question(session, timestamp)),
        ),
        (StartupView::Changelogs(spared), _) => (
            StartupView::Traces(spared),
            session::doing(gzips(changelogs, spared, answer), names_for(traces)),
        ),
        (StartupView::Traces(spared), _) => (
            StartupView::Header,
            session::doing(
                gzips(traces, spared, answer),
                header_question(session, timestamp),
            ),
        ),
        (StartupView::Header, _) => (
            StartupView::Creating,
            session::doing(
                complaint_if(answer, "failed to create changelog: "@) + relink(
                    settings,
                    session.id,
                ),
                QuestionView::CreateWorktrees,
            ),
        ),
        (StartupView::Creating, AnswerView::Failed(error)) => (
            StartupView::Over(false),
            session::closing(blocked(session, error)),
        ),
        (StartupView::Creating, AnswerView::Created(entries)) => if entries.len() > 0 {
            (StartupView::Saving(entries), session::asking(QuestionView::SaveSpec(entries)))
        } else {
            (StartupView::Over(false), session::closing(Seq::empty()))
        },
        (StartupView::Saving(entries), _) => (
            StartupView::Over(true),
            session::closing(
                complaint_if(answer, "failed to save spec file: "@) + announcement(entries),
            ),
        ),
        (StartupView::Over(active), _) => (
            StartupView::Over(active),
            session::closing(Seq::empty()),
        ),
        _ => (StartupView::Over(false), session::closing(Seq::empty())),
    }
}

/// The pattern that files of sessions in the workspace match.
fn pattern_for(settings: &Settings, prefix: &str, suffix: &str) -> (pattern: String)
    ensures
        pattern@ == log_pattern(settings.deep_view(), prefix@, suffix@),
{
    let star = recovery::star(prefix, suffix);
    archive::pattern_in(settings.workspace.as_slice(), star.as_str())
}

/// The compression of leftover files.
fn gzip_all(
    settings: &Settings,
    prefix: &str,
    suffix: &str,
    spared: &[String],
    answer: &Answer,
) -> (effects: Vec<Effect>)
    ensures
        effects.deep_view() == gzips(
            log_pattern(settings.deep_view(), prefix@, suffix@),
            spared.deep_view(),
            answer.deep_view(),
        ),
{
    let mut effects: Vec<Effect> = session::no_effects();
    let names: &Vec<Vec<u8>> = match answer {
        Answer::Names(Some(names)) => names,
        _ => return effects,
    };
    let star = recovery::star(prefix, suffix);
    let files: Vec<Vec<u8>> = archive::gzip_stale_files_excluding(
        settings.workspace.as_slice(),
        star.as_str(),
        spared,
        Some(names.as_slice()),
    );
    let ghost wanted = gzips(
        log_pattern(settings.deep_view(), prefix@, suffix@),
        spared.deep_view(),
        answer.deep_view(),
    );
    assert(wanted =~= path::views(files@).map_values(|p: Seq<u8>| EffectView::Gzip(p)));
    assert(wanted.take(0) =~= Seq::<EffectView>::empty());
    let mut i: usize = 0;
    while i < files.len()
        invariant
            i <= files@.len(),
            wanted == path::views(files@).map_values(|p: Seq<u8>| EffectView::Gzip(p)),
            effects.deep_view() == wanted.take(i as int),
        decreases files.len() - i,
    {
        session::add_effect(&mut effects, Effect::Gzip(path::copy_of(files[i].as_slice())));
        assert(wanted.take(i + 1) =~= wanted.take(i as int).push(wanted[i as int]));
        i = i + 1;
    }
    assert(wanted.take(wanted.len() as int) =~= wanted);
    effects
}

/// What is done when worktrees could not be created.
fn block(session: &Session, error: &str) -> (effects: Vec<Effect>)
    ensures
        effects.deep_view() == blocked(session.deep_view(), error@),
{
    let mut effects: Vec<Effect> = session::no_effects();
    let entry = output::concat3(
        "\n### Worktree creation FAILED\n- Error: ",
        error,
        "\n- ALL repo writes will be blocked for this session\n",
    );
    session::add_effect(
        &mut effects,
        Effect::Append(path::copy_of(session.changelog_path.as_slice()), entry),
    );
    let mut line = "muzzle/session-start: ".to_string();
    line.append(error);
    session::add_effect(&mut effects, Effect::Complain(line));
    let mut warning =
        "\nWARNING: Worktree creation failed. All repo writes will be blocked.\nError: ".to_string();
    warning.append(error);
    session::add_effect(&mut effects, Effect::Print(output::emit_context(warning.as_str())));
    assert(effects.deep_view() =~= blocked(session.deep_view(), error@));
    effects
}

/// Set up a new session.
pub fn handle_startup(
    settings: &Settings,
    session: &Session,
    timestamp: &str,
    state: Startup,
    answer: Answer,
) -> (next: (Startup, Turn))
    ensures
        (next.0.deep_view(), next.1.deep_view()) == startup_step(
            settings.deep_view(),
            session.deep_view(),
            timestamp@,
            state.deep_view(),
            answer.deep_view(),
        ),
{
    match (state, answer) {
        (Startup::Begin, _) => (Startup::Running, session::ask(Question::Running)),
        (Startup::Running, Answer::Running(ids)) => {
            let ghost running = ids.deep_view();
            let mut spared: Vec<String> = ids;
            spared.push(session.id.clone());
            assert(spared.deep_view() =~= running.push(session.id@));
            let pattern = pattern_for(
                settings,
                settings.changelog_prefix.as_str(),
                settings.changelog_suffix.as_str(),
            );
            (
                Startup::Changelogs(spared),
                session::ask(Question::Names(glob::glob_dir(pattern.as_str()))),
            )
        },
        (Startup::Running, _) => {
            let header = output::header(timestamp, session.id.as_str());
            let log: Vec<u8> = path::copy_of(session.changelog_path.as_slice());
            (Startup::Header, session::ask(Question::Write(log, header)))
        },
        (Startup::Changelogs(spared), answer) => {
            // Leftover changelogs of crashed sessions are compressed.
            let effects: Vec<Effect> = gzip_all(
                settings,
                settings.changelog_prefix.as_str(),
                settings.changelog_suffix.as_str(),
                spared.as_slice(),
                &answer,
            );
            let pattern = pattern_for(
                settings,
                settings.trace_prefix.as_str(),
                settings.trace_suffix.as_str(),
            );
            (
                Startup::Traces(spared),
                Turn { effects, next: Some(Question::Names(glob::glob_dir(pattern.as_str()))) },
            )
        },
        (Startup::Traces(spared), answer) => {
            let effects: Vec<Effect> = gzip_all(
                settings,
                settings.trace_prefix.as_str(),
                settings.trace_suffix.as_str(),
                spared.as_slice(),
                &answer,
            );
            let header = output::header(timestamp, session.id.as_str());
            let log: Vec<u8> = path::copy_of(session.changelog_path.as_slice());
            (Startup::Header, Turn { effects, next: Some(Question::Write(log, header)) })
        },
        (Startup::Header, answer) => {
            let mut effects: Vec<Effect> = complain_if(&answer, "failed to create changelog: ");
            update_symlink(settings, session.id.as_str(), &mut effects);
            (Startup::Creating, Turn { effects, next: Some(Question::CreateWorktrees) })
        },
        (Startup::Creating, Answer::Failed(error)) => (
            Startup::Over(false),
            Turn { effects: block(session, error.as_str()), next: None },
        ),
        (Startup::Creating, Answer::Created(entries)) => if entries.len() > 0 {
            let copies: Vec<SpecEntry> = copy_entries(entries.as_slice());
            (Startup::Saving(entries), session::ask(Question::SaveSpec(copies)))
        } else {
            (Startup::Over(false), session::close())
        },
        (Startup::Saving(entries), answer) => {
            let mut effects: Vec<Effect> = complain_if(&answer, "failed to save spec file: ");
            add_announcement(entries.as_slice(), &mut effects);
            (Startup::Over(true), Turn { effects, next: None })
        },
        (Startup::Over(active), _) => (Startup::Over(active), session::close()),
        _ => (Startup::Over(false), session::close()),
    }
}

// ---------------------------------------------------------------------------
// Resume
// ---------------------------------------------------------------------------

/// How far the taking up of a session has come: what was asked for last.
#[derive(Debug, PartialEq, Eq)]
pub enum Resume {
    Begin,
    /// To restore the changelog.
    Log,
    /// What the spec file records.
    Spec,
    /// To restore the worktrees.
    Restoring,
    /// All is done; whether the session has worktrees.
    Over(bool),
}

/// What is done once it is known whether the changelog is back.
pub open spec fn log_restored(
    settings: SettingsView,
    session: SessionView,
    timestamp: Seq<char>,
    restored: bool,
) -> Seq<EffectView> {
    (if restored {
        Seq::empty()
    } else {
        seq![
            EffectView::Write(
                session.changelog_path,
                output::header_text(timestamp, session.id) + output::lost_note(),
            ),
        ]
    }) + seq![
        EffectView::Unpack { gz_path: session.trace_gz_path, dest_path: session.trace_path },
        EffectView::Append(session.changelog_path, output::resume_text(timestamp)),
    ] + relink(settings, session.id)
}

/// The entries in the changelog for the worktrees that could not be restored.
pub open spec fn restore_warnings(log: Seq<u8>, errors: Seq<Seq<char>>) -> Seq<EffectView> {
    errors.map_values(|e: Seq<char>| EffectView::Append(log, output::restore_warning(e)))
}

/// What is done with the worktrees that were restored.
pub open spec fn worktrees_restored(entries: Seq<SpecEntryView>) -> Seq<EffectView> {
    if entries.len() > 0 {
        seq![EffectView::SaveSpec(entries)] + announcement(entries)
    } else {
        Seq::empty()
    }
}

/// The taking up of a session.
pub open spec fn resume_step(
    settings: SettingsView,
    session: SessionView,
    timestamp: Seq<char>,
    state: Resume,
    answer: AnswerView,
) -> (Resume, TurnView) {
    match (state, answer) {
        (Resume::Begin, _) => (
            Resume::Log,
            session::asking(
                QuestionView::RestoreLog {
                    gz_path: session.changelog_gz_path,
                    log_path: session.changelog_path,
                },
            ),
        ),
        (Resume::Log, _) => (
            Resume::Spec,
            session::doing(
                log_restored(settings, session, timestamp, answer is Yes),
                QuestionView::ReadSpec,
            ),
        ),
        (Resume::Spec, AnswerView::Spec(Some(entries))) => if entries.len() > 0 {
            (Resume::Restoring, session::asking(QuestionView::RestoreWorktrees(entries)))
        } else {
            (Resume::Over(false), session::closing(Seq::empty()))
        },
        (Resume::Restoring, AnswerView::Restored(restored, errors)) => (
            Resume::Over(restored.len() > 0),
            session::closing(
                restore_warnings(session.changelog_path, errors) + worktrees_restored(restored),
            ),
        ),
        (Resume::Over(active), _) => (Resume::Over(active), session::closing(Seq::empty())),
        _ => (Resume::Over(false), session::closing(Seq::empty())),
    }
}

/// The entries in the changelog for the worktrees that could not be restored.
fn warn_of(log: &[u8], errors: &[String]) -> (effects: Vec<Effect>)
    ensures
        effects.deep_view() == restore_warnings(log@, errors.deep_view()),
{
    let mut effects: Vec<Effect> = session::no_effects();
    let mut i: usize = 0;
    let ghost wanted = restore_warnings(log@, errors.deep_view());
    assert(wanted.take(0) =~= Seq::<EffectView>::empty());
    while i < errors.len()
        invariant
            i <= errors@.len(),
            wanted == restore_warnings(log@, errors.deep_view()),
            effects.deep_view() == wanted.take(i as int),
        decreases errors.len() - i,
    {
        let entry = output::concat3(
            "\n### Worktree restore warning\n- ",
            errors[i].as_str(),
            "\n",
        );
        session::add_effect(&mut effects, Effect::Append(path::copy_of(log), entry));
        assert(wanted.take(i + 1) =~= wanted.take(i as int).push(wanted[i as int]));
        i = i + 1;
    }
    assert(wanted.take(wanted.len() as int) =~= wanted);
    effects
}

/// Take up a session again.
pub fn handle_resume(
    settings: &Settings,
    session: &Session,
    timestamp: &str,
    state: Resume,
    answer: Answer,
) -> (next: (Resume, Turn))
    ensures
        (next.0, next.1.deep_view()) == resume_step(
            settings.deep_view(),
            session.deep_view(),
            timestamp@,
            state,
            answer.deep_view(),
        ),
{
    let log: &[u8] = session.changelog_path.as_slice();
    match (state, answer) {
        (Resume::Begin, _) => (
            Resume::Log,
            session::ask(
                Question::RestoreLog {
                    gz_path: path::copy_of(session.changelog_gz_path.as_slice()),
                    log_path: path::copy_of(log),
                },
            ),
        ),
        (Resume::Log, answer) => {
            let mut effects: Vec<Effect> = session::no_effects();
            if !matches!(answer, Answer::Yes) {
                let header = output::lost_header(timestamp, session.id.as_str());
                session::add_effect(&mut effects, Effect::Write(path::copy_of(log), header));
            }
            session::add_effect(
                &mut effects,
                Effect::Unpack {
                    gz_path: path::copy_of(session.trace_gz_path.as_slice()),
                    dest_path: path::copy_of(session.trace_path.as_slice()),
                },
            );
            let mark = output::concat3("\n---\n### Session resumed: ", timestamp, "\n");
            session::add_effect(&mut effects, Effect::Append(path::copy_of(log), mark));
            update_symlink(settings, session.id.as_str(), &mut effects);
            assert(effects.deep_view() =~= log_restored(
                settings.deep_view(),
                session.deep_view(),
                timestamp@,
                answer is Yes,
            ));
            (Resume::Spec, Turn { effects, next: Some(Question::ReadSpec) })
        },
        (Resume::Spec, Answer::Spec(Some(entries))) => if entries.len() > 0 {
            (Resume::Restoring, session::ask(Question::RestoreWorktrees(entries)))
        } else {
            (Resume::Over(false), session::close())
        },
        (Resume::Restoring, Answer::Restored(restored, errors)) => {
            let mut effects: Vec<Effect> = warn_of(log, errors.as_slice());
            let ghost warned = effects.deep_view();
            if restored.len() == 0 {
                assert(warned + worktrees_restored(restored.deep_view()) =~= warned);
                return (Resume::Over(false), Turn { effects, next: None });
            }
            let copies: Vec<SpecEntry> = copy_entries(restored.as_slice());
            session::add_effect(&mut effects, Effect::SaveSpec(copies));
            add_announcement(restored.as_slice(), &mut effects);
            assert(effects.deep_view() =~= warned + worktrees_restored(restored.deep_view()));
            (Resume::Over(true), Turn { effects, next: None })
        },
        (Resume::Over(active), _) => (Resume::Over(active), session::close()),
        _ => (Resume::Over(false), session::close()),
    }
}

// ---------------------------------------------------------------------------
// Clear and compact
// ---------------------------------------------------------------------------

/// How far it has come with a session whose context was cleared or compacted: what
/// was asked for last.
#[derive(Debug, PartialEq, Eq)]
pub enum Clear {
    Begin,
    /// Whether there is a changelog.
    Log,
    /// To restore the changelog.
    Restoring,
    /// What the spec file records.
    Spec,
    /// Which of these worktrees exist.
    Existing(Vec<SpecEntry>),
    Over,
}

/// The model of a [`Clear`].
pub enum ClearView {
    Begin,
    Log,
    Restoring,
    Spec,
    Existing(Seq<SpecEntryView>),
    Over,
}

impl DeepView for Clear {
    type V = ClearView;

    open spec fn deep_view(&self) -> ClearView {
        match self {
            Clear::Begin => ClearView::Begin,
            Clear::Log => ClearView::Log,
            Clear::Restoring => ClearView::Restoring,
            Clear::Spec => ClearView::Spec,
            Clear::Existing(entries) => ClearView::Existing(entries.deep_view()),
            Clear::Over => ClearView::Over,
        }
    }
}

/// Where worktrees are.
pub open spec fn worktree_paths(entries: Seq<SpecEntryView>) -> Seq<Seq<char>> {
    entries.map_values(|e: SpecEntryView| e.wt_path)
}

/// Those of the entries that are flagged, in order.
pub open spec fn flagged(entries: Seq<SpecEntryView>, flags: Seq<bool>) -> Seq<SpecEntryView>
    decreases entries.len(),
{
    if entries.len() == 0 {
        Seq::empty()
    } else {
        let before = flagged(entries.drop_last(), flags);
        if entries.len() <= flags.len() && flags[entries.len() - 1] {
            before.push(entries.last())
        } else {
            before
        }
    }
}

/// A changelog that could not be restored is written again.
pub open spec fn log_again(
    session: SessionView,
    source: Seq<char>,
    timestamp: Seq<char>,
    restored: bool,
) -> Seq<EffectView> {
    if restored {
        Seq::empty()
    } else {
        seq![
            EffectView::Write(
                session.changelog_path,
                output::header_text(timestamp, session.id) + output::again_note(source),
            ),
        ]
    }
}

/// What is done for a session whose context was cleared or compacted.
pub open spec fn clear_step(
    settings: SettingsView,
    session: SessionView,
    source: Seq<char>,
    timestamp: Seq<char>,
    state: ClearView,
    answer: AnswerView,
) -> (ClearView, TurnView) {
    match (state, answer) {
        (ClearView::Begin, _) => (
            ClearView::Log,
            session::asking(QuestionView::Exists(session.changelog_path)),
        ),
        (ClearView::Log, AnswerView::Yes) => (
            ClearView::Spec,
            session::doing(relink(settings, session.id), QuestionView::ReadSpec),
        ),
        (ClearView::Log, _) => (
            ClearView::Restoring,
            session::asking(
                QuestionView::RestoreLog {
                    gz_path: session.changelog_gz_path,
                    log_path: session.changelog_path,
                },
            ),
        ),
        (ClearView::Restoring, _) => (
            ClearView::Spec,
            session::doing(
                log_again(session, source, timestamp, answer is Yes) + relink(
                    settings,
                    session.id,
                ),
                QuestionView::ReadSpec,
            ),
        ),
        (ClearView::Spec, AnswerView::Spec(Some(entries))) => (
            ClearView::Existing(entries),
            session::asking(QuestionView::WhichExist(worktree_paths(entries))),
        ),
        (ClearView::Existing(entries), AnswerView::Which(flags)) => (
            ClearView::Over,
            session::closing(announcement(flagged(entries, flags))),
        ),
        _ => (ClearView::Over, session::closing(Seq::empty())),
    }
}

/// Those of the entries that are flagged.
fn pick_flagged(entries: &[SpecEntry], flags: &[bool]) -> (picked: Vec<SpecEntry>)
    ensures
        picked.deep_view() == flagged(entries.deep_view(), flags@),
{
    let mut picked: Vec<SpecEntry> = Vec::new();
    let mut i: usize = 0;
    let ghost all = entries.deep_view();
    assert(picked.deep_view() =~= flagged(all.take(0), flags@));
    while i < entries.len()
        invariant
            i <= entries@.len(),
            all == entries.deep_view(),
            picked.deep_view() == flagged(all.take(i as int), flags@),
        decreases entries.len() - i,
    {
        let ghost before = picked.deep_view();
        assert(all.take(i + 1).drop_last() =~= all.take(i as int));
        assert(all.take(i + 1).last() == entries@[i as int].deep_view());
        if i < flags.len() && flags[i] {
            let e = &entries[i];
            picked.push(
                SpecEntry {
                    repo: e.repo.clone(),
                    wt_path: e.wt_path.clone(),
                    branch: e.branch.clone(),
                },
            );
            assert(picked.deep_view() =~= before.push(e.deep_view()));
        }
        i = i + 1;
    }
    assert(all.take(all.len() as int) =~= all);
    picked
}

/// Where worktrees are.
fn paths_of(entries: &[SpecEntry]) -> (paths: Vec<String>)
    ensures
        paths.deep_view() == worktree_paths(entries.deep_view()),
{
    let mut paths: Vec<String> = Vec::new();
    let mut i: usize = 0;
    while i < entries.len()
        invariant
            i <= entries@.len(),
            paths@.len() == i,
            forall|j: int| 0 <= j < i ==> (#[trigger] paths@[j])@ == entries@[j].wt_path@,
        decreases entries.len() - i,
    {
        paths.push(entries[i].wt_path.clone());
        i = i + 1;
    }
    assert(paths.deep_view() =~= worktree_paths(entries.deep_view()));
    paths
}

/// Go on with a session whose context was cleared or compacted.
pub fn handle_clear_compact(
    settings: &Settings,
    session: &Session,
    source: &str,
    timestamp: &str,
    state: Clear,
    answer: Answer,
) -> (next: (Clear, Turn))
    ensures
        (next.0.deep_view(), next.1.deep_view()) == clear_step(
            settings.deep_view(),
            session.deep_view(),
            source@,
            timestamp@,
            state.deep_view(),
            answer.deep_view(),
        ),
{
    let log: &[u8] = session.changelog_path.as_slice();
    match (state, answer) {
        (Clear::Begin, _) => (Clear::Log, session::ask(Question::Exists(path::copy_of(log)))),
        (Clear::Log, Answer::Yes) => {
            let mut effects: Vec<Effect> = session::no_effects();
            update_symlink(settings, session.id.as_str(), &mut effects);
            assert(effects.deep_view() =~= relink(settings.deep_view(), session.id@));
            (Clear::Spec, Turn { effects, next: Some(Question::ReadSpec) })
        },
        (Clear::Log, _) => (
            Clear::Restoring,
            session::ask(
                Question::RestoreLog {
                    gz_path: path::copy_of(session.changelog_gz_path.as_slice()),
                    log_path: path::copy_of(log),
                },
            ),
        ),
        (Clear::Restoring, answer) => {
            let mut effects: Vec<Effect> = session::no_effects();
            if !matches!(answer, Answer::Yes) {
                let header = output::again_header(timestamp, session.id.as_str(), source);
                session::add_effect(&mut effects, Effect::Write(path::copy_of(log), header));
            }
            assert(effects.deep_view() =~= log_again(
                session.deep_view(),
                source@,
                timestamp@,
                answer is Yes,
            ));
            update_symlink(settings, session.id.as_str(), &mut effects);
            (Clear::Spec, Turn { effects, next: Some(Question::ReadSpec) })
        },
        (Clear::Spec, Answer::Spec(Some(entries))) => {
            let paths: Vec<String> = paths_of(entries.as_slice());
            (Clear::Existing(entries), session::ask(Question::WhichExist(paths)))
        },
        (Clear::Existing(entries), Answer::Which(flags)) => {
            let active: Vec<SpecEntry> = pick_flagged(entries.as_slice(), flags.as_slice());
            let mut effects: Vec<Effect> = session::no_effects();
            add_announcement(active.as_slice(), &mut effects);
            assert(effects.deep_view() =~= announcement(active.deep_view()));
            (Clear::Over, Turn { effects, next: None })
        },
        _ => (Clear::Over, session::close()),
    }
}

// ---------------------------------------------------------------------------
// The hook
// ---------------------------------------------------------------------------

/// What the hook has to do: for which session, since when, and why it was run.
#[derive(Debug, PartialEq, Eq)]
pub struct Job {
    pub session: Session,
    pub timestamp: String,
    pub source: String,
}

/// The model of a [`Job`].
pub struct JobView {
    pub session: SessionView,
    pub timestamp: Seq<char>,
    pub source: Seq<char>,
}

impl DeepView for Job {
    type V = JobView;

    open spec fn deep_view(&self) -> JobView {
        JobView {
            session: self.session.deep_view(),
            timestamp: self.timestamp@,
            source: self.source@,
        }
    }
}

/// One of the three ways to deal with a session, and how far it has come.
#[derive(Debug, PartialEq, Eq)]
pub enum Handler {
    Startup(Startup),
    Resume(Resume),
    Clear(Clear),
}

/// The model of a [`Handler`].
pub enum HandlerView {
    Startup(StartupView),
    Resume(Resume),
    Clear(ClearView),
}

impl DeepView for Handler {
    type V = HandlerView;

    open spec fn deep_view(&self) -> HandlerView {
        match self {
            Handler::Startup(s) => HandlerView::Startup(s.deep_view()),
            Handler::Resume(s) => HandlerView::Resume(*s),
            Handler::Clear(s) => HandlerView::Clear(s.deep_view()),
        }
    }
}

/// How far the hook has come: what was asked for last.
#[derive(Debug, PartialEq, Eq)]
pub enum Run {
    Begin,
    /// Whether the program is run inside the workspace.
    Place,
    /// What is on standard input.
    Reading,
    /// The session with the identifier `id`.
    Resolving { id: String, source: String },
    /// The time.
    Dating { id: String, source: String, session: Session },
    /// To leave a marker for the process.
    Registering(Job),
    /// To make the temporary directory.
    Preparing(Job),
    Handling(Job, Handler),
    Recovering(Job, Recovery),
    /// All is done; the exit code.
    Over(u8),
}

/// The model of a [`Run`].
pub enum RunView {
    Begin,
    Place,
    Reading,
    Resolving { id: Seq<char>, source: Seq<char> },
    Dating { id: Seq<char>, source: Seq<char>, session: SessionView },
    Registering(JobView),
    Preparing(JobView),
    Handling(JobView, HandlerView),
    Recovering(JobView, RecoveryView),
    Over(u8),
}

impl DeepView for Run {
    type V = RunView;

    open spec fn deep_view(&self) -> RunView {
        match self {
            Run::Begin => RunView::Begin,
            Run::Place => RunView::Place,
            Run::Reading => RunView::Reading,
            Run::Resolving { id, source } => RunView::Resolving { id: id@, source: source@ },
            Run::Dating { id, source, session } => RunView::Dating {
                id: id@,
                source: source@,
                session: session.deep_view(),
            },
            Run::Registering(job) => RunView::Registering(job.deep_view()),
            Run::Preparing(job) => RunView::Preparing(job.deep_view()),
            Run::Handling(job, h) => RunView::Handling(job.deep_view(), h.deep_view()),
            Run::Recovering(job, r) => RunView::Recovering(job.deep_view(), r.deep_view()),
            Run::Over(code) => RunView::Over(*code),
        }
    }
}

impl Run {
    /// A state that the hook can be in.
    pub open spec fn wf(self, limit: usize) -> bool {
        self matches Run::Recovering(_, r) ==> r.wf(limit)
    }
}

/// Where an answer has recovery count back to a moment, there is that moment.
pub open spec fn run_dated(settings: SettingsView, state: RunView, answer: AnswerView) -> bool {
    state matches RunView::Recovering(_, r) ==> recovery::recovery_dated(settings, r, answer)
}

/// Whether an answer can be handed to [`run`]: where it has recovery count back to
/// a moment, there is that moment.
pub fn can_date(settings: &Settings, state: &Run, answer: &Answer) -> (yes: bool)
    ensures
        yes == run_dated(settings.deep_view(), state.deep_view(), answer.deep_view()),
{
    match state {
        Run::Recovering(_, r) => recovery::can_date(settings, r, answer),
        _ => true,
    }
}

/// The session that the hook is run for, where it is not told.
pub open spec fn session_id_of(input: Option<Seq<char>>) -> Seq<char> {
    match input {
        Some(id) => id,
        None => "unknown"@,
    }
}

/// Why the hook is run, where it is not told.
pub open spec fn source_of(input: Option<Seq<char>>) -> Seq<char> {
    match input {
        Some(source) => source,
        None => "startup"@,
    }
}

/// How to deal with a session, by why the hook was run.
pub open spec fn handler_for(source: Seq<char>) -> HandlerView {
    if source == "resume"@ {
        HandlerView::Resume(Resume::Begin)
    } else if source == "clear"@ || source == "compact"@ {
        HandlerView::Clear(ClearView::Begin)
    } else {
        HandlerView::Startup(StartupView::Begin)
    }
}

/// A step in dealing with a session.
pub open spec fn handler_step(
    settings: SettingsView,
    job: JobView,
    handler: HandlerView,
    answer: AnswerView,
) -> (HandlerView, TurnView) {
    match handler {
        HandlerView::Startup(s) => {
            let next = startup_step(settings, job.session, job.timestamp, s, answer);
            (HandlerView::Startup(next.0), next.1)
        },
        HandlerView::Resume(s) => {
            let next = resume_step(settings, job.session, job.timestamp, s, answer);
            (HandlerView::Resume(next.0), next.1)
        },
        HandlerView::Clear(s) => {
            let next = clear_step(settings, job.session, job.source, job.timestamp, s, answer);
            (HandlerView::Clear(next.0), next.1)
        },
    }
}

/// The hook goes on dealing with the session, or with recovery once that is done.
pub open spec fn handled(
    settings: SettingsView,
    job: JobView,
    handler: HandlerView,
    turn: TurnView,
) -> (RunView, TurnView) {
    if turn.next is Some {
        (RunView::Handling(job, handler), turn)
    } else {
        let next = recovery::recovery_step(
            settings,
            job.session.short_id,
            RecoveryView::Begin,
            AnswerView::Yes,
        );
        (
            RunView::Recovering(job, next.0),
            TurnView { effects: turn.effects + next.1.effects, next: next.1.next },
        )
    }
}

/// The hook, from why it was run to recovery.
pub open spec fn run_step(settings: SettingsView, state: RunView, answer: AnswerView) -> (
    RunView,
    TurnView,
) {
    match (state, answer) {
        (RunView::Begin, _) => (RunView::Place, session::asking(QuestionView::InWorkspace)),
        (RunView::Place, AnswerView::Yes) => (
            RunView::Reading,
            session::asking(QuestionView::Input),
        ),
        (RunView::Place, _) => (RunView::Over(0), session::closing(Seq::empty())),
        (RunView::Reading, AnswerView::Input(input)) => (
            RunView::Resolving {
                id: session_id_of(input.session_id),
                source: source_of(input.source),
            },
            session::asking(QuestionView::Resolve(session_id_of(input.session_id))),
        ),
        (RunView::Reading, AnswerView::Failed(why)) => (
            RunView::Over(1),
            session::closing(
                seq![EffectView::Complain(output::complaint("failed to read stdin: "@ + why))],
            ),
        ),
        (RunView::Reading, AnswerView::Malformed(why)) => (
            RunView::Over(1),
            session::closing(
                seq![EffectView::Complain(output::complaint("failed to parse JSON: "@ + why))],
            ),
        ),
        (RunView::Resolving { id, source }, AnswerView::Session(session)) => (
            RunView::Dating { id, source, session },
            session::asking(QuestionView::Now),
        ),
        (RunView::Dating { id, source, session }, AnswerView::Seconds(secs)) => (
            RunView::Registering(
                JobView { session, timestamp: calendar::timestamp(secs as nat), source },
            ),
            session::asking(QuestionView::RegisterPid(id)),
        ),
        (RunView::Registering(job), _) => (
            RunView::Preparing(job),
            session::doing(
                complaint_if(answer, "failed to register PID: "@),
                QuestionView::MakeDirs(job.session.tmp_dir),
            ),
        ),
        (RunView::Preparing(job), _) => {
            let next = handler_step(settings, job, handler_for(job.source), AnswerView::Yes);
            let complaint = complaint_if(answer, "failed to create temp dir: "@);
            handled(
                settings,
                job,
                next.0,
                TurnView { effects: complaint + next.1.effects, next: next.1.next },
            )
        },
        (RunView::Handling(job, handler), _) => {
            let next = handler_step(settings, job, handler, answer);
            handled(settings, job, next.0, next.1)
        },
        (RunView::Recovering(job, r), _) => {
            let next = recovery::recovery_step(settings, job.session.short_id, r, answer);
            if next.1.next is Some {
                (RunView::Recovering(job, next.0), next.1)
            } else {
                (RunView::Over(0), next.1)
            }
        },
        (RunView::Over(code), _) => (RunView::Over(code), session::closing(Seq::empty())),
        _ => (RunView::Over(1), session::closing(Seq::empty())),
    }
}

/// How to deal with a session, by why the hook was run.
pub fn choose_handler(source: &str) -> (handler: Handler)
    ensures
        handler.deep_view() == handler_for(source@),
{
    if text::same_text(source, "resume") {
        Handler::Resume(Resume::Begin)
    } else if text::same_text(source, "clear") || text::same_text(source, "compact") {
        Handler::Clear(Clear::Begin)
    } else {
        Handler::Startup(Startup::Begin)
    }
}

/// A step in dealing with a session.
fn handle(settings: &Settings, job: &Job, handler: Handler, answer: Answer) -> (next: (Handler, Turn))
    ensures
        (next.0.deep_view(), next.1.deep_view()) == handler_step(
            settings.deep_view(),
            job.deep_view(),
            handler.deep_view(),
            answer.deep_view(),
        ),
{
    let timestamp: &str = job.timestamp.as_str();
    match handler {
        Handler::Startup(s) => {
            let (s, turn) = handle_startup(settings, &job.session, timestamp, s, answer);
            (Handler::Startup(s), turn)
        },
        Handler::Resume(s) => {
            let (s, turn) = handle_resume(settings, &job.session, timestamp, s, answer);
            (Handler::Resume(s), turn)
        },
        Handler::Clear(s) => {
            let (s, turn) = handle_clear_compact(
                settings,
                &job.session,
                job.source.as_str(),
                timestamp,
                s,
                answer,
            );
            (Handler::Clear(s), turn)
        },
    }
}

/// One turn's effects before those of another.
fn before_turn(first: Vec<Effect>, turn: Turn) -> (both: Turn)
    ensures
        both.deep_view() == (TurnView {
            effects: first.deep_view() + turn.deep_view().effects,
            next: turn.deep_view().next,
        }),
{
    let mut effects: Vec<Effect> = first;
    let ghost head = effects.deep_view();
    let ghost tail = turn.effects.deep_view();
    let mut rest: Vec<Effect> = turn.effects;
    effects.append(&mut rest);
    assert(effects.deep_view() =~= head + tail);
    Turn { effects, next: turn.next }
}

/// The hook goes on dealing with the session, or with recovery once that is done.
fn carry_on(settings: &Settings, job: Job, handler: Handler, turn: Turn) -> (next: (Run, Turn))
    ensures
        (next.0.deep_view(), next.1.deep_view()) == handled(
            settings.deep_view(),
            job.deep_view(),
            handler.deep_view(),
            turn.deep_view(),
        ),
        next.0.wf(settings.max_cleanup_iterations),
{
    if turn.next.is_some() {
        return (Run::Handling(job, handler), turn);
    }
    let (r, first) = recovery::crash_recovery(
        settings,
        job.session.short_id.as_str(),
        Recovery::Begin,
        Answer::Yes,
    );
    let both = before_turn(turn.effects, first);
    (Run::Recovering(job, r), both)
}

/// A turn that complains and closes the matter.
fn give_up(what: &str, why: &str) -> (turn: Turn)
    ensures
        turn.deep_view() == session::closing(
            seq![EffectView::Complain(output::complaint(what@ + why@))],
        ),
{
    let mut effects: Vec<Effect> = session::no_effects();
    session::add_effect(&mut effects, Effect::Complain(output::complain_of(what, why)));
    assert(effects.deep_view() =~= seq![
        EffectView::Complain(output::complaint(what@ + why@)),
    ]);
    Turn { effects, next: None }
}

/// Run the hook.
pub fn run(settings: &Settings, state: Run, answer: Answer) -> (next: (Run, Turn))
    requires
        state.wf(settings.max_cleanup_iterations),
        run_dated(settings.deep_view(), state.deep_view(), answer.deep_view()),
    ensures
        (next.0.deep_view(), next.1.deep_view()) == run_step(
            settings.deep_view(),
            state.deep_view(),
            answer.deep_view(),
        ),
        next.0.wf(settings.max_cleanup_iterations),
{
    match (state, answer) {
        (Run::Begin, _) => (Run::Place, session::ask(Question::InWorkspace)),
        (Run::Place, Answer::Yes) => (Run::Reading, session::ask(Question::Input)),
        (Run::Place, _) => (Run::Over(0), session::close()),
        (Run::Reading, Answer::Input(input)) => {
            let HookInput { session_id, source } = input;
            let id = match session_id {
                Some(id) => id,
                None => "unknown".to_string(),
            };
            let source = match source {
                Some(source) => source,
                None => "startup".to_string(),
            };
            let wanted = id.clone();
            (Run::Resolving { id, source }, session::ask(Question::Resolve(wanted)))
        },
        (Run::Reading, Answer::Failed(why)) => (
            Run::Over(1),
            give_up("failed to read stdin: ", why.as_str()),
        ),
        (Run::Reading, Answer::Malformed(why)) => (
            Run::Over(1),
            give_up("failed to parse JSON: ", why.as_str()),
        ),
        (Run::Resolving { id, source }, Answer::Session(session)) => (
            Run::Dating { id, source, session },
            session::ask(Question::Now),
        ),
        (Run::Dating { id, source, session }, Answer::Seconds(secs)) => {
            let timestamp = calendar::chrono_utc_now(secs);
            (
                Run::Registering(Job { session, timestamp, source }),
                session::ask(Question::RegisterPid(id)),
            )
        },
        (Run::Registering(job), answer) => {
            let effects: Vec<Effect> = complain_if(&answer, "failed to register PID: ");
            let dir: Vec<u8> = path::copy_of(job.session.tmp_dir.as_slice());
            (Run::Preparing(job), Turn { effects, next: Some(Question::MakeDirs(dir)) })
        },
        (Run::Preparing(job), answer) => {
            let effects: Vec<Effect> = complain_if(&answer, "failed to create temp dir: ");
            let handler = choose_handler(job.source.as_str());
            let (handler, turn) = handle(settings, &job, handler, Answer::Yes);
            carry_on(settings, job, handler, before_turn(effects, turn))
        },
        (Run::Handling(job, handler), answer) => {
            let (handler, turn) = handle(settings, &job, handler, answer);
            carry_on(settings, job, handler, turn)
        },
        (Run::Recovering(job, r), answer) => {
            let (r, turn) = recovery::crash_recovery(
                settings,
                job.session.short_id.as_str(),
                r,
                answer,
            );
            if turn.next.is_some() {
                (Run::Recovering(job, r), turn)
            } else {
                (Run::Over(0), turn)
            }
        },
        (Run::Over(code), _) => (Run::Over(code), session::close()),
        _ => (Run::Over(1), session::close()),
    }
}

// ---------------------------------------------------------------------------
// Laws
// ---------------------------------------------------------------------------

/// A failure is complained of with what failed and why, in full, and nothing else is
/// complained of.
pub proof fn law_complaints(answer: AnswerView, what: Seq<char>, why: Seq<char>)
    ensures
        complaint_if(AnswerView::Failed(why), what) == seq![
            EffectView::Complain("muzzle/session-start: "@ + (what + why)),
        ],
        answer !is Failed ==> complaint_if(answer, what) == Seq::<EffectView>::empty(),
{
}

/// The link to the latest changelog is removed, and then made to lead to the changelog of
/// the session.
pub proof fn law_relink(settings: SettingsView, id: Seq<char>)
    ensures
        relink(settings, id) == seq![
            EffectView::Remove(settings.changelog_symlink),
            EffectView::Symlink {
                target: "."@ + settings.agent + "-changelog-"@ + id + ".md"@,
                link: settings.changelog_symlink,
            },
        ],
{
}

/// Worktrees are announced in one line that reads back, as JSON, as the announcement of all
/// of them; where there are none, nothing is.
pub proof fn law_announcement(entries: Seq<SpecEntryView>)
    ensures
        entries.len() == 0 ==> announcement(entries) == Seq::<EffectView>::empty(),
        entries.len() > 0 ==> announcement(entries).len() == 1 && (announcement(entries)[0]
            matches EffectView::Print(line) && output::read_nested(line) == Some(
            (
                "hookSpecificOutput"@,
                seq![
                    (
                        "additionalContext"@,
                        "\nActive worktrees for this session:\n"@ + entries.flat_map(
                            |e: SpecEntryView|
                                "  "@ + e.repo + ": "@ + e.wt_path + " (branch: "@ + e.branch
                                    + ")\n"@,
                        )
                            + "\nUse these worktree paths for ALL file operations (reads, writes, git commands).\n"@
                            + "Do NOT use the main checkout directly — use the worktree path above."@,
                    ),
                    ("hookEventName"@, "SessionStart"@),
                ],
            ),
        )),
{
    output::law_worktrees_text(entries);
    output::law_context_reads_back(output::worktrees_text(entries));
}

/// A session whose worktrees could not be created has the error in its changelog, in the
/// complaint and in what it is told, in full.
pub proof fn law_blocked(session: SessionView, error: Seq<char>)
    ensures
        ({
            let effects = blocked(session, error);
            &&& effects.len() == 3
            &&& effects[0] == EffectView::Append(
                session.changelog_path,
                "\n### Worktree creation FAILED\n- Error: "@ + error
                    + "\n- ALL repo writes will be blocked for this session\n"@,
            )
            &&& effects[1] == EffectView::Complain("muzzle/session-start: "@ + error)
            &&& effects[2] matches EffectView::Print(line)
            &&& output::read_nested(line) == Some(
                (
                    "hookSpecificOutput"@,
                    seq![
                        (
                            "additionalContext"@,
                            "\nWARNING: Worktree creation failed. All repo writes will be blocked.\nError: "@
                                + error,
                        ),
                        ("hookEventName"@, "SessionStart"@),
                    ],
                ),
            )
        }),
{
    output::law_context_reads_back(output::blocked_warning(error));
}

/// On resume a changelog that was not restored begins anew and says so, the trace is
/// restored, and the changelog gets the mark of the resume before the link leads to it.
pub proof fn law_log_restored(
    settings: SettingsView,
    session: SessionView,
    timestamp: Seq<char>,
)
    ensures
        ({
            let rest = seq![
                EffectView::Unpack {
                    gz_path: session.trace_gz_path,
                    dest_path: session.trace_path,
                },
                EffectView::Append(
                    session.changelog_path,
                    "\n---\n### Session resumed: "@ + timestamp + "\n"@,
                ),
                EffectView::Remove(settings.changelog_symlink),
                EffectView::Symlink {
                    target: "."@ + settings.agent + "-changelog-"@ + session.id + ".md"@,
                    link: settings.changelog_symlink,
                },
            ];
            &&& log_restored(settings, session, timestamp, true) == rest
            &&& log_restored(settings, session, timestamp, false) == seq![
                EffectView::Write(
                    session.changelog_path,
                    "## Session: "@ + timestamp + " ("@ + session.id + ")\n\n"@
                        + "> **Note**: Original changelog not found — created fresh on resume.\n\n"@,
                ),
            ] + rest
        }),
{
    let rest = seq![
        EffectView::Unpack { gz_path: session.trace_gz_path, dest_path: session.trace_path },
        EffectView::Append(
            session.changelog_path,
            "\n---\n### Session resumed: "@ + timestamp + "\n"@,
        ),
        EffectView::Remove(settings.changelog_symlink),
        EffectView::Symlink {
            target: "."@ + settings.agent + "-changelog-"@ + session.id + ".md"@,
            link: settings.changelog_symlink,
        },
    ];
    assert(log_restored(settings, session, timestamp, true) =~= rest);
    assert(log_restored(settings, session, timestamp, false) =~= seq![
        EffectView::Write(
            session.changelog_path,
            "## Session: "@ + timestamp + " ("@ + session.id + ")\n\n"@
                + "> **Note**: Original changelog not found — created fresh on resume.\n\n"@,
        ),
    ] + rest);
}

/// After a clear or a compaction a changelog that was not restored is written again and says
/// after what.
pub proof fn law_log_again(session: SessionView, source: Seq<char>, timestamp: Seq<char>)
    ensures
        log_again(session, source, timestamp, true) == Seq::<EffectView>::empty(),
        log_again(session, source, timestamp, false) == seq![
            EffectView::Write(
                session.changelog_path,
                "## Session: "@ + timestamp + " ("@ + session.id + ")\n\n"@ + (
                "> **Note**: Changelog recreated after "@ + source + ".\n\n"@),
            ),
        ],
{
}

/// Every worktree that could not be restored has an entry in the changelog, in order and with
/// the error in full.
pub proof fn law_restore_warnings(log: Seq<u8>, errors: Seq<Seq<char>>)
    ensures
        restore_warnings(log, errors).len() == errors.len(),
        forall|i: int|
            0 <= i < errors.len() ==> #[trigger] restore_warnings(log, errors)[i]
                == EffectView::Append(
                log,
                "\n### Worktree restore warning\n- "@ + errors[i] + "\n"@,
            ),
{
}

/// Worktrees that were restored are all recorded, and then announced; where there are none,
/// nothing is.
pub proof fn law_worktrees_restored(entries: Seq<SpecEntryView>)
    ensures
        entries.len() == 0 ==> worktrees_restored(entries) == Seq::<EffectView>::empty(),
        entries.len() > 0 ==> worktrees_restored(entries) == seq![EffectView::SaveSpec(entries)]
            + announcement(entries),
{
}

/// Of every worktree it is asked whether it exists, in order and by its path.
pub proof fn law_worktree_paths(entries: Seq<SpecEntryView>)
    ensures
        worktree_paths(entries).len() == entries.len(),
        forall|i: int|
            0 <= i < entries.len() ==> #[trigger] worktree_paths(entries)[i] == entries[i].wt_path,
{
}

/// Which entries are flagged is decided one by one, and their order is kept.
pub proof fn law_flagged_one_by_one(
    a: Seq<SpecEntryView>,
    a_flags: Seq<bool>,
    b: Seq<SpecEntryView>,
    b_flags: Seq<bool>,
    e: SpecEntryView,
)
    requires
        a.len() == a_flags.len(),
        b.len() == b_flags.len(),
    ensures
        flagged(Seq::empty(), Seq::empty()) == Seq::<SpecEntryView>::empty(),
        flagged(seq![e], seq![true]) == seq![e],
        flagged(seq![e], seq![false]) == Seq::<SpecEntryView>::empty(),
        flagged(a + b, a_flags + b_flags) == flagged(a, a_flags) + flagged(b, b_flags),
    decreases b.len(),
{
    reveal_with_fuel(flagged, 2);
    assert(seq![e].drop_last() =~= Seq::<SpecEntryView>::empty());
    assert(Seq::<SpecEntryView>::empty().push(e) =~= seq![e]);
    let (entries, flags) = (a + b, a_flags + b_flags);
    if b.len() == 0 {
        assert(entries =~= a);
        assert(flags =~= a_flags);
        assert(flagged(a, a_flags) + flagged(b, b_flags) =~= flagged(a, a_flags));
    } else {
        let front = b.drop_last();
        law_flagged_one_by_one(a, a_flags, front, b_flags.drop_last(), e);
        assert(entries.drop_last() =~= a + front);
        lemma_flags_beyond(a + front, flags, a_flags + b_flags.drop_last());
        lemma_flags_beyond(front, b_flags, b_flags.drop_last());
        assert(flagged(entries, flags) =~= flagged(a, a_flags) + flagged(b, b_flags));
    }
}

/// Flags beyond the entries make no difference.
proof fn lemma_flags_beyond(entries: Seq<SpecEntryView>, more: Seq<bool>, flags: Seq<bool>)
    requires
        entries.len() <= flags.len(),
        entries.len() <= more.len(),
        forall|i: int| 0 <= i < entries.len() ==> more[i] == flags[i],
    ensures
        flagged(entries, more) == flagged(entries, flags),
    decreases entries.len(),
{
    if entries.len() > 0 {
        lemma_flags_beyond(entries.drop_last(), more, flags);
    }
}

/// Where the hook is not told for which session it is run, that is `unknown`, and where it is
/// not told why, that is a startup. Otherwise it goes by what it is told.
pub proof fn law_defaults(told: Seq<char>)
    ensures
        session_id_of(None) == "unknown"@,
        session_id_of(Some(told)) == told,
        source_of(None) == "startup"@,
        source_of(Some(told)) == told,
{
}

/// The logs of sessions are looked for in the workspace under their prefix, anything, and
/// their suffix.
pub proof fn law_log_pattern(
    settings: SettingsView,
    workspace: Seq<char>,
    prefix: Seq<char>,
    suffix: Seq<char>,
)
    requires
        settings.workspace == utf8::encode_utf8(workspace),
        workspace.len() > 0,
        workspace.last() != '/',
        prefix.len() > 0 ==> prefix[0] != '/',
    ensures
        log_pattern(settings, prefix, suffix) == workspace + seq!['/'] + (prefix + seq!['*']
            + suffix),
{
    reveal_strlit("*");
    assert("*"@ =~= seq!['*']);
    archive::law_full_pattern(workspace, recovery::star_pattern(prefix, suffix));
}

/// The compression of leftover files is that of each of them, in order, and of nothing where
/// the directory could not be read.
pub proof fn law_gzips(
    pattern: Seq<char>,
    spared: Seq<Seq<char>>,
    names: Seq<Seq<u8>>,
    answer: AnswerView,
)
    ensures
        ({
            let files = archive::leftovers(
                glob::pattern_dir(pattern),
                glob::pattern_name(pattern),
                spared,
                names,
            );
            let effects = gzips(pattern, spared, AnswerView::Names(Some(names)));
            &&& effects.len() == files.len()
            &&& forall|i: int|
                0 <= i < files.len() ==> #[trigger] effects[i] == EffectView::Gzip(files[i])
        }),
        answer !is Names ==> gzips(pattern, spared, answer) == Seq::<EffectView>::empty(),
        gzips(pattern, spared, AnswerView::Names(None)) == Seq::<EffectView>::empty(),
        names_for(pattern) == QuestionView::Names(utf8::encode_utf8(glob::pattern_dir(pattern))),
{
}

} // verus!
