//! A session, the settings it runs under, and how its hook talks to the system:
//! in turns, each of which gives effects to carry out and at most one question.

use vstd::prelude::*;

use crate::cleanup::Listed;
use crate::cleanup::ListedView;
use crate::cleanup::Moment;
use crate::path;
use crate::system::Invocation;
use crate::system::InvocationView;
use crate::system::Outcome;
use crate::system::OutcomeView;

verus! {

// ---------------------------------------------------------------------------
// Sessions and settings
// ---------------------------------------------------------------------------

/// One worktree of a session, as its spec file records it.
#[derive(Debug, PartialEq, Eq)]
pub struct SpecEntry {
    pub repo: String,
    pub wt_path: String,
    pub branch: String,
}

/// The model of a [`SpecEntry`].
pub struct SpecEntryView {
    pub repo: Seq<char>,
    pub wt_path: Seq<char>,
    pub branch: Seq<char>,
}

impl DeepView for SpecEntry {
    type V = SpecEntryView;

    open spec fn deep_view(&self) -> SpecEntryView {
        SpecEntryView { repo: self.repo@, wt_path: self.wt_path@, branch: self.branch@ }
    }
}

/// What the hook is told when it is run.
#[derive(Debug, PartialEq, Eq)]
pub struct HookInput {
    pub session_id: Option<String>,
    pub source: Option<String>,
}

/// The model of a [`HookInput`].
pub struct HookInputView {
    pub session_id: Option<Seq<char>>,
    pub source: Option<Seq<char>>,
}

impl DeepView for HookInput {
    type V = HookInputView;

    open spec fn deep_view(&self) -> HookInputView {
        HookInputView {
            session_id: self.session_id.deep_view(),
            source: self.source.deep_view(),
        }
    }
}

/// A session: its identifiers and where its files are.
#[derive(Debug, PartialEq, Eq)]
pub struct Session {
    pub id: String,
    pub short_id: String,
    pub tmp_dir: Vec<u8>,
    pub changelog_path: Vec<u8>,
    pub changelog_gz_path: Vec<u8>,
    pub trace_path: Vec<u8>,
    pub trace_gz_path: Vec<u8>,
}

/// The model of a [`Session`].
pub struct SessionView {
    pub id: Seq<char>,
    pub short_id: Seq<char>,
    pub tmp_dir: Seq<u8>,
    pub changelog_path: Seq<u8>,
    pub changelog_gz_path: Seq<u8>,
    pub trace_path: Seq<u8>,
    pub trace_gz_path: Seq<u8>,
}

impl DeepView for Session {
    type V = SessionView;

    open spec fn deep_view(&self) -> SessionView {
        SessionView {
            id: self.id@,
            short_id: self.short_id@,
            tmp_dir: self.tmp_dir@,
            changelog_path: self.changelog_path@,
            changelog_gz_path: self.changelog_gz_path@,
            trace_path: self.trace_path@,
            trace_gz_path: self.trace_gz_path@,
        }
    }
}

/// The settings that all sessions share.
#[derive(Debug, PartialEq, Eq)]
pub struct Settings {
    /// The directory that holds the repositories.
    pub workspace: Vec<u8>,
    /// The agent whose sessions these are. Its files in the workspace are named after
    /// it.
    pub agent: String,
    /// The link to the changelog of the latest session.
    pub changelog_symlink: Vec<u8>,
    /// The directory of the markers of running processes.
    pub pid_marker_dir: Vec<u8>,
    pub changelog_prefix: String,
    pub changelog_suffix: String,
    pub trace_prefix: String,
    pub trace_suffix: String,
    pub spec_file_prefix: String,
    pub spec_file_suffix: String,
    pub stale_temp_dir_max_age_days: u64,
    pub stale_pid_marker_max_age_days: u64,
    pub stale_spec_file_max_age_days: u64,
    pub orphan_worktree_max_age_hours: u64,
    /// How many things a clean-up removes at most.
    pub max_cleanup_iterations: usize,
}

/// The model of [`Settings`].
pub struct SettingsView {
    pub workspace: Seq<u8>,
    pub agent: Seq<char>,
    pub changelog_symlink: Seq<u8>,
    pub pid_marker_dir: Seq<u8>,
    pub changelog_prefix: Seq<char>,
    pub changelog_suffix: Seq<char>,
    pub trace_prefix: Seq<char>,
    pub trace_suffix: Seq<char>,
    pub spec_file_prefix: Seq<char>,
    pub spec_file_suffix: Seq<char>,
    pub stale_temp_dir_max_age_days: u64,
    pub stale_pid_marker_max_age_days: u64,
    pub stale_spec_file_max_age_days: u64,
    pub orphan_worktree_max_age_hours: u64,
    pub max_cleanup_iterations: nat,
}

impl DeepView for Settings {
    type V = SettingsView;

    open spec fn deep_view(&self) -> SettingsView {
        SettingsView {
            workspace: self.workspace@,
            agent: self.agent@,
            changelog_symlink: self.changelog_symlink@,
            pid_marker_dir: self.pid_marker_dir@,
            changelog_prefix: self.changelog_prefix@,
            changelog_suffix: self.changelog_suffix@,
            trace_prefix: self.trace_prefix@,
            trace_suffix: self.trace_suffix@,
            spec_file_prefix: self.spec_file_prefix@,
            spec_file_suffix: self.spec_file_suffix@,
            stale_temp_dir_max_age_days: self.stale_temp_dir_max_age_days,
            stale_pid_marker_max_age_days: self.stale_pid_marker_max_age_days,
            stale_spec_file_max_age_days: self.stale_spec_file_max_age_days,
            orphan_worktree_max_age_hours: self.orphan_worktree_max_age_hours,
            max_cleanup_iterations: self.max_cleanup_iterations as nat,
        }
    }
}

// ---------------------------------------------------------------------------
// Effects
// ---------------------------------------------------------------------------

/// Something to carry out. Whether it works out makes no difference.
#[derive(Debug, PartialEq, Eq)]
pub enum Effect {
    /// Write a line to standard output.
    Print(String),
    /// Write a line to standard error.
    Complain(String),
    /// Compress a file, by [`crate::archive::gzip_file`].
    Gzip(Vec<u8>),
    /// Restore a file from an archive, by [`crate::archive::restore_gz_file`].
    Unpack { gz_path: Vec<u8>, dest_path: Vec<u8> },
    /// Write a file, anew.
    Write(Vec<u8>, String),
    /// Append to a file, which is created if need be.
    Append(Vec<u8>, String),
    /// Remove a file.
    Remove(Vec<u8>),
    /// Remove a directory with all that is in it.
    RemoveTree(Vec<u8>),
    /// Make a symbolic link.
    Symlink { target: String, link: Vec<u8> },
    /// Record the worktrees of the session in its spec file.
    SaveSpec(Vec<SpecEntry>),
    /// Have git forget the worktrees of a repository that are gone.
    PruneStale(Vec<u8>),
    /// Remove the directories for worktrees of a repository that are empty.
    CleanEmptyDirs(Vec<u8>),
    /// Run a command.
    Run(Invocation),
}

/// The model of an [`Effect`].
pub enum EffectView {
    Print(Seq<char>),
    Complain(Seq<char>),
    Gzip(Seq<u8>),
    Unpack { gz_path: Seq<u8>, dest_path: Seq<u8> },
    Write(Seq<u8>, Seq<char>),
    Append(Seq<u8>, Seq<char>),
    Remove(Seq<u8>),
    RemoveTree(Seq<u8>),
    Symlink { target: Seq<char>, link: Seq<u8> },
    SaveSpec(Seq<SpecEntryView>),
    PruneStale(Seq<u8>),
    CleanEmptyDirs(Seq<u8>),
    Run(InvocationView),
}

impl DeepView for Effect {
    type V = EffectView;

    open spec fn deep_view(&self) -> EffectView {
        match self {
            Effect::Print(s) => EffectView::Print(s@),
            Effect::Complain(s) => EffectView::Complain(s@),
            Effect::Gzip(p) => EffectView::Gzip(p@),
            Effect::Unpack { gz_path, dest_path } => EffectView::Unpack {
                gz_path: gz_path@,
                dest_path: dest_path@,
            },
            Effect::Write(p, s) => EffectView::Write(p@, s@),
            Effect::Append(p, s) => EffectView::Append(p@, s@),
            Effect::Remove(p) => EffectView::Remove(p@),
            Effect::RemoveTree(p) => EffectView::RemoveTree(p@),
            Effect::Symlink { target, link } => EffectView::Symlink {
                target: target@,
                link: link@,
            },
            Effect::SaveSpec(entries) => EffectView::SaveSpec(entries.deep_view()),
            Effect::PruneStale(p) => EffectView::PruneStale(p@),
            Effect::CleanEmptyDirs(p) => EffectView::CleanEmptyDirs(p@),
            Effect::Run(i) => EffectView::Run(i.deep_view()),
        }
    }
}

// ---------------------------------------------------------------------------
// Questions and answers
// ---------------------------------------------------------------------------

/// Something to find out, or to do where it matters whether it works out.
#[derive(Debug, PartialEq, Eq)]
pub enum Question {
    /// Is the program run inside the workspace?
    InWorkspace,
    /// What is on standard input?
    Input,
    /// The session with this identifier.
    Resolve(String),
    /// The time, in seconds since the epoch.
    Now,
    /// Leave a marker for the process of the session.
    RegisterPid(String),
    /// Which sessions are running, going by the markers of their processes?
    Running,
    /// Make a directory, with its parents.
    MakeDirs(Vec<u8>),
    /// The names of the entries of a directory.
    Names(Vec<u8>),
    /// The entries of a directory. With `follow` what is said of a link is said of
    /// what it leads to.
    Entries { dir: Vec<u8>, follow: bool },
    /// Does a path lead anywhere?
    Exists(Vec<u8>),
    /// Which of these paths lead anywhere?
    WhichExist(Vec<String>),
    /// Write a file, anew.
    Write(Vec<u8>, String),
    /// Restore a changelog, by [`crate::archive::restore_changelog`].
    RestoreLog { gz_path: Vec<u8>, log_path: Vec<u8> },
    /// Create the worktrees of the session.
    CreateWorktrees,
    /// Restore the worktrees of the session.
    RestoreWorktrees(Vec<SpecEntry>),
    /// Record the worktrees of the session in its spec file.
    SaveSpec(Vec<SpecEntry>),
    /// The worktrees that the spec file of the session records.
    ReadSpec,
    /// Run a command.
    Run(Invocation),
    /// How many whole seconds have gone by since recovery began.
    Elapsed,
}

/// The model of a [`Question`].
pub enum QuestionView {
    InWorkspace,
    Input,
    Resolve(Seq<char>),
    Now,
    RegisterPid(Seq<char>),
    Running,
    MakeDirs(Seq<u8>),
    Names(Seq<u8>),
    Entries { dir: Seq<u8>, follow: bool },
    Exists(Seq<u8>),
    WhichExist(Seq<Seq<char>>),
    Write(Seq<u8>, Seq<char>),
    RestoreLog { gz_path: Seq<u8>, log_path: Seq<u8> },
    CreateWorktrees,
    RestoreWorktrees(Seq<SpecEntryView>),
    SaveSpec(Seq<SpecEntryView>),
    ReadSpec,
    Run(InvocationView),
    Elapsed,
}

impl DeepView for Question {
    type V = QuestionView;

    open spec fn deep_view(&self) -> QuestionView {
        match self {
            Question::InWorkspace => QuestionView::InWorkspace,
            Question::Input => QuestionView::Input,
            Question::Resolve(id) => QuestionView::Resolve(id@),
            Question::Now => QuestionView::Now,
            Question::RegisterPid(id) => QuestionView::RegisterPid(id@),
            Question::Running => QuestionView::Running,
            Question::MakeDirs(p) => QuestionView::MakeDirs(p@),
            Question::Names(p) => QuestionView::Names(p@),
            Question::Entries { dir, follow } => QuestionView::Entries {
                dir: dir@,
                follow: *follow,
            },
            Question::Exists(p) => QuestionView::Exists(p@),
            Question::WhichExist(paths) => QuestionView::WhichExist(paths.deep_view()),
            Question::Write(p, s) => QuestionView::Write(p@, s@),
            Question::RestoreLog { gz_path, log_path } => QuestionView::RestoreLog {
                gz_path: gz_path@,
                log_path: log_path@,
            },
            Question::CreateWorktrees => QuestionView::CreateWorktrees,
            Question::RestoreWorktrees(entries) => QuestionView::RestoreWorktrees(
                entries.deep_view(),
            ),
            Question::SaveSpec(entries) => QuestionView::SaveSpec(entries.deep_view()),
            Question::ReadSpec => QuestionView::ReadSpec,
            Question::Run(i) => QuestionView::Run(i.deep_view()),
            Question::Elapsed => QuestionView::Elapsed,
        }
    }
}

/// The answer to a [`Question`].
#[derive(Debug, PartialEq, Eq)]
pub enum Answer {
    /// It is so, or it was done.
    Yes,
    /// It is not so.
    No,
    /// It could not be done; the reason in words.
    Failed(String),
    /// Standard input was read, but it is not what the hook is told by; the reason
    /// in words.
    Malformed(String),
    Input(HookInput),
    Session(Session),
    /// The identifiers of the sessions that are running.
    Running(Vec<String>),
    /// Seconds since the epoch, or since recovery began.
    Seconds(u64),
    /// The names in a directory, where it can be read.
    Names(Option<Vec<Vec<u8>>>),
    /// The entries of a directory, where it can be read, and the time then.
    Entries(Option<Vec<Listed>>, Moment),
    Which(Vec<bool>),
    /// The worktrees that were created.
    Created(Vec<SpecEntry>),
    /// The worktrees that were restored, and what went wrong with the others.
    Restored(Vec<SpecEntry>, Vec<String>),
    /// What a spec file records, where it can be read.
    Spec(Option<Vec<SpecEntry>>),
    Ran(Outcome),
}

/// The model of an [`Answer`].
pub enum AnswerView {
    Yes,
    No,
    Failed(Seq<char>),
    Malformed(Seq<char>),
    Input(HookInputView),
    Session(SessionView),
    Running(Seq<Seq<char>>),
    Seconds(u64),
    Names(Option<Seq<Seq<u8>>>),
    Entries(Option<Seq<ListedView>>, Moment),
    Which(Seq<bool>),
    Created(Seq<SpecEntryView>),
    Restored(Seq<SpecEntryView>, Seq<Seq<char>>),
    Spec(Option<Seq<SpecEntryView>>),
    Ran(OutcomeView),
}

impl DeepView for Answer {
    type V = AnswerView;

    open spec fn deep_view(&self) -> AnswerView {
        match self {
            Answer::Yes => AnswerView::Yes,
            Answer::No => AnswerView::No,
            Answer::Failed(e) => AnswerView::Failed(e@),
            Answer::Malformed(e) => AnswerView::Malformed(e@),
            Answer::Input(i) => AnswerView::Input(i.deep_view()),
            Answer::Session(s) => AnswerView::Session(s.deep_view()),
            Answer::Running(ids) => AnswerView::Running(ids.deep_view()),
            Answer::Seconds(n) => AnswerView::Seconds(*n),
            Answer::Names(names) => AnswerView::Names(
                match names {
                    Some(names) => Some(path::views(names@)),
                    None => None,
                },
            ),
            Answer::Entries(entries, now) => AnswerView::Entries(entries.deep_view(), *now),
            Answer::Which(flags) => AnswerView::Which(flags@),
            Answer::Created(entries) => AnswerView::Created(entries.deep_view()),
            Answer::Restored(entries, errors) => AnswerView::Restored(
                entries.deep_view(),
                errors.deep_view(),
            ),
            Answer::Spec(entries) => AnswerView::Spec(entries.deep_view()),
            Answer::Ran(o) => AnswerView::Ran(o.deep_view()),
        }
    }
}

// ---------------------------------------------------------------------------
// Turns
// ---------------------------------------------------------------------------

/// One turn of the hook: effects to carry out in order, and then a question, or
/// none where the matter is closed.
#[derive(Debug, PartialEq, Eq)]
pub struct Turn {
    pub effects: Vec<Effect>,
    pub next: Option<Question>,
}

/// The model of a [`Turn`].
pub struct TurnView {
    pub effects: Seq<EffectView>,
    pub next: Option<QuestionView>,
}

impl DeepView for Turn {
    type V = TurnView;

    open spec fn deep_view(&self) -> TurnView {
        TurnView { effects: self.effects.deep_view(), next: self.next.deep_view() }
    }
}

/// A turn that only asks.
pub open spec fn asking(question: QuestionView) -> TurnView {
    TurnView { effects: Seq::empty(), next: Some(question) }
}

/// A turn that carries something out, then asks.
pub open spec fn doing(effects: Seq<EffectView>, question: QuestionView) -> TurnView {
    TurnView { effects, next: Some(question) }
}

/// A turn that carries something out and closes the matter.
pub open spec fn closing(effects: Seq<EffectView>) -> TurnView {
    TurnView { effects, next: None }
}

/// A turn that only asks.
pub fn ask(question: Question) -> (turn: Turn)
    ensures
        turn.deep_view() == asking(question.deep_view()),
{
    let effects: Vec<Effect> = Vec::new();
    assert(effects.deep_view() =~= Seq::<EffectView>::empty());
    Turn { effects, next: Some(question) }
}

/// A turn that closes the matter.
pub fn close() -> (turn: Turn)
    ensures
        turn.deep_view() == closing(Seq::empty()),
{
    let effects: Vec<Effect> = Vec::new();
    assert(effects.deep_view() =~= Seq::<EffectView>::empty());
    Turn { effects, next: None }
}

/// No effects.
pub fn no_effects() -> (effects: Vec<Effect>)
    ensures
        effects.deep_view() == Seq::<EffectView>::empty(),
{
    let effects: Vec<Effect> = Vec::new();
    assert(effects.deep_view() =~= Seq::<EffectView>::empty());
    effects
}

/// One effect more.
pub fn add_effect(effects: &mut Vec<Effect>, effect: Effect)
    ensures
        final(effects).deep_view() == old(effects).deep_view().push(effect.deep_view()),
{
    let ghost before = effects.deep_view();
    let ghost e = effect.deep_view();
    effects.push(effect);
    assert(effects.deep_view() =~= before.push(e));
}

/// A turn carries out the effects that it is given, all and in order, and asks what it is
/// given to ask.
pub proof fn law_turns(effects: Seq<EffectView>, question: QuestionView)
    ensures
        asking(question).effects.len() == 0,
        asking(question).next == Some(question),
        doing(effects, question).effects == effects,
        doing(effects, question).next == Some(question),
        closing(effects).effects == effects,
        closing(effects).next is None,
{
}

} // verus!
