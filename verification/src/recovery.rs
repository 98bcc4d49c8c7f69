//! Crash recovery: what the hook clears away once the session is set up, within a
//! bounded time.

use vstd::prelude::*;
use vstd::utf8;

use crate::archive;
use crate::cleanup;
use crate::cleanup::Listed;
use crate::cleanup::ListedView;
use crate::cleanup::Moment;
use crate::glob;
use crate::output;
use crate::path;
use crate::session;
use crate::session::Answer;
use crate::session::AnswerView;
use crate::session::Effect;
use crate::session::EffectView;
use crate::session::Question;
use crate::session::QuestionView;
use crate::session::Settings;
use crate::session::SettingsView;
use crate::session::Turn;
use crate::session::TurnView;
use crate::system::Invocation;
use crate::system::InvocationView;
use crate::system::Outcome;
use crate::system::OutcomeView;
use crate::system::Step;
use crate::system::Streams;
use crate::text;
use crate::worktree::git;

verus! {

// ---------------------------------------------------------------------------
// Removals
// ---------------------------------------------------------------------------

/// The removal of files.
pub open spec fn file_removals(paths: Seq<Seq<u8>>) -> Seq<EffectView> {
    paths.map_values(|p: Seq<u8>| EffectView::Remove(p))
}

/// The removal of directories.
pub open spec fn tree_removals(paths: Seq<Seq<u8>>) -> Seq<EffectView> {
    paths.map_values(|p: Seq<u8>| EffectView::RemoveTree(p))
}

/// The removal of files.
fn remove_files(paths: &[Vec<u8>]) -> (effects: Vec<Effect>)
    ensures
        effects.deep_view() == file_removals(path::views(paths@)),
{
    let mut effects: Vec<Effect> = session::no_effects();
    let mut i: usize = 0;
    let ghost wanted = file_removals(path::views(paths@));
    assert(wanted.take(0) =~= Seq::<EffectView>::empty());
    while i < paths.len()
        invariant
            i <= paths@.len(),
            wanted == file_removals(path::views(paths@)),
            effects.deep_view() == wanted.take(i as int),
        decreases paths.len() - i,
    {
        session::add_effect(&mut effects, Effect::Remove(path::copy_of(paths[i].as_slice())));
        assert(wanted.take(i + 1) =~= wanted.take(i as int).push(wanted[i as int]));
        i = i + 1;
    }
    assert(wanted.take(wanted.len() as int) =~= wanted);
    effects
}

/// The removal of directories.
fn remove_trees(paths: &[Vec<u8>]) -> (effects: Vec<Effect>)
    ensures
        effects.deep_view() == tree_removals(path::views(paths@)),
{
    let mut effects: Vec<Effect> = session::no_effects();
    let mut i: usize = 0;
    let ghost wanted = tree_removals(path::views(paths@));
    assert(wanted.take(0) =~= Seq::<EffectView>::empty());
    while i < paths.len()
        invariant
            i <= paths@.len(),
            wanted == tree_removals(path::views(paths@)),
            effects.deep_view() == wanted.take(i as int),
        decreases paths.len() - i,
    {
        session::add_effect(&mut effects, Effect::RemoveTree(path::copy_of(paths[i].as_slice())));
        assert(wanted.take(i + 1) =~= wanted.take(i as int).push(wanted[i as int]));
        i = i + 1;
    }
    assert(wanted.take(wanted.len() as int) =~= wanted);
    effects
}

// ---------------------------------------------------------------------------
// Orphaned worktrees and branches
// ---------------------------------------------------------------------------

/// A walk through the entries of the workspace: which worktrees are old enough to
/// go, how many went so far, and the entries with the place of the current one.
#[derive(Debug, PartialEq, Eq)]
pub struct Survey {
    cutoff: Moment,
    count: usize,
    entries: Vec<Listed>,
    at: usize,
}

/// The model of a [`Survey`]: `rest` are the entries from the current one on.
pub struct SurveyView {
    pub cutoff: Moment,
    pub count: nat,
    pub rest: Seq<ListedView>,
}

impl DeepView for Survey {
    type V = SurveyView;

    closed spec fn deep_view(&self) -> SurveyView {
        SurveyView {
            cutoff: self.cutoff,
            count: self.count as nat,
            rest: self.entries.deep_view().skip(self.at as int),
        }
    }
}

/// How far the pruning of worktrees has come: what was asked for last.
#[derive(Debug, PartialEq, Eq)]
pub enum Prune {
    Begin,
    /// The entries of the workspace.
    Listing,
    /// Whether the current entry is a repository.
    Testing(Survey),
    /// What is among its worktrees.
    Looking(Survey),
    /// Which of them git knows of.
    Comparing(Survey, Vec<Listed>),
    /// Which branches it has.
    Branches(Survey),
    /// Which of those are checked out.
    Checkouts(Survey, String),
    /// All is done; so many worktrees went.
    Over(usize),
}

/// The model of a [`Prune`].
pub enum PruneView {
    Begin,
    Listing,
    Testing(SurveyView),
    Looking(SurveyView),
    Comparing(SurveyView, Seq<ListedView>),
    Branches(SurveyView),
    Checkouts(SurveyView, Seq<char>),
    Over(nat),
}

impl DeepView for Prune {
    type V = PruneView;

    open spec fn deep_view(&self) -> PruneView {
        match self {
            Prune::Begin => PruneView::Begin,
            Prune::Listing => PruneView::Listing,
            Prune::Testing(s) => PruneView::Testing(s.deep_view()),
            Prune::Looking(s) => PruneView::Looking(s.deep_view()),
            Prune::Comparing(s, entries) => PruneView::Comparing(
                s.deep_view(),
                entries.deep_view(),
            ),
            Prune::Branches(s) => PruneView::Branches(s.deep_view()),
            Prune::Checkouts(s, branches) => PruneView::Checkouts(s.deep_view(), branches@),
            Prune::Over(count) => PruneView::Over(*count as nat),
        }
    }
}

impl Survey {
    /// The current entry is one of the entries, and no more went than may.
    pub closed spec fn wf(self, limit: usize) -> bool {
        self.at < self.entries@.len() && self.count <= limit
    }
}

/// A walk that can be under way has an entry before it, and no more went than may.
pub proof fn lemma_survey(survey: Survey, limit: usize)
    requires
        survey.wf(limit),
    ensures
        survey.deep_view().rest.len() > 0,
        survey.deep_view().count <= limit,
{
}

impl Prune {
    /// A state that the pruning can be in.
    pub open spec fn wf(self, limit: usize) -> bool {
        match self {
            Prune::Begin => true,
            Prune::Listing => true,
            Prune::Testing(s) => s.wf(limit),
            Prune::Looking(s) => s.wf(limit),
            Prune::Comparing(s, _) => s.wf(limit),
            Prune::Branches(s) => s.wf(limit),
            Prune::Checkouts(s, _) => s.wf(limit),
            Prune::Over(count) => count <= limit,
        }
    }
}

impl PruneView {
    /// How many worktrees went so far.
    pub open spec fn count(self) -> nat {
        match self {
            PruneView::Begin => 0,
            PruneView::Listing => 0,
            PruneView::Testing(s) => s.count,
            PruneView::Looking(s) => s.count,
            PruneView::Comparing(s, _) => s.count,
            PruneView::Branches(s) => s.count,
            PruneView::Checkouts(s, _) => s.count,
            PruneView::Over(count) => count,
        }
    }
}

/// The path of the current entry.
pub open spec fn current_repo(settings: SettingsView, s: SurveyView) -> Seq<u8> {
    path::joined(settings.workspace, s.rest[0].name)
}

/// On to the first entry of `s` that is a directory, after `effects`. Where there is
/// none, or enough was removed, that is all.
pub open spec fn survey_on(
    settings: SettingsView,
    s: SurveyView,
    effects: Seq<EffectView>,
) -> (PruneView, TurnView)
    decreases s.rest.len(),
{
    if s.count >= settings.max_cleanup_iterations || s.rest.len() == 0 {
        (PruneView::Over(s.count), session::closing(effects))
    } else if s.rest[0].is_dir == Some(true) {
        (
            PruneView::Testing(s),
            session::doing(
                effects,
                QuestionView::Exists(path::joined_text(current_repo(settings, s), ".git"@)),
            ),
        )
    } else {
        survey_on(settings, SurveyView { rest: s.rest.drop_first(), ..s }, effects)
    }
}

/// The current entry is dealt with.
pub open spec fn survey_next(
    settings: SettingsView,
    s: SurveyView,
    effects: Seq<EffectView>,
) -> (PruneView, TurnView) {
    survey_on(settings, SurveyView { rest: s.rest.drop_first(), ..s }, effects)
}

/// Git's porcelain listing of the worktrees of a repository.
pub open spec fn listing_command(repo: Seq<u8>) -> InvocationView {
    git::git_command(git::listing_args(repo), Streams::Captured)
}

/// Git's list of the branches of worktrees of a repository.
pub open spec fn branches_command(repo: Seq<u8>) -> InvocationView {
    git::git_command(
        seq!["-C"@, path::shown(repo), "branch"@, "--list"@, "wt/*"@],
        Streams::Captured,
    )
}

/// The deletion of a branch.
pub open spec fn delete_command(repo: Seq<u8>, branch: Seq<char>) -> InvocationView {
    git::git_command(
        seq!["-C"@, path::shown(repo), "branch"@, "-D"@, branch],
        Streams::Captured,
    )
}

/// What a git command wrote, where it could be started.
pub open spec fn git_text(outcome: OutcomeView) -> Option<Seq<char>> {
    match outcome {
        OutcomeView::Exited { stdout, .. } => Some(path::shown(stdout)),
        OutcomeView::NotStarted(_) => None,
    }
}

/// The worktrees that git knows of; none where it could not be started.
pub open spec fn active_worktrees(outcome: OutcomeView) -> Seq<Seq<char>> {
    match git_text(outcome) {
        Some(listing) => git::listed_worktrees(listing),
        None => Seq::empty(),
    }
}

/// Git's listing of worktrees; empty where it could not be started.
pub open spec fn listing_text(outcome: OutcomeView) -> Seq<char> {
    match git_text(outcome) {
        Some(listing) => listing,
        None => Seq::empty(),
    }
}

/// The worktrees to remove of the current entry, given those that git knows of.
pub open spec fn worktrees_to_remove(
    settings: SettingsView,
    short_id: Seq<char>,
    s: SurveyView,
    entries: Seq<ListedView>,
    active: Seq<Seq<char>>,
) -> Seq<Seq<u8>> {
    cleanup::at_most(
        (settings.max_cleanup_iterations - s.count) as nat,
        cleanup::orphans(
            cleanup::worktrees_dir(current_repo(settings, s)),
            entries,
            active,
            short_id,
            s.cutoff,
        ),
    )
}

/// The effects once it is known which worktrees of the current entry are to go:
/// they are removed, git is to forget them, and empty directories go.
pub open spec fn prune_effects(repo: Seq<u8>, removed: Seq<Seq<u8>>) -> Seq<EffectView> {
    tree_removals(removed).push(EffectView::PruneStale(repo)).push(
        EffectView::CleanEmptyDirs(repo),
    )
}

/// The deletion of branches.
pub open spec fn branch_deletions(repo: Seq<u8>, branches: Seq<Seq<char>>) -> Seq<EffectView> {
    branches.map_values(|b: Seq<char>| EffectView::Run(delete_command(repo, b)))
}

/// The pruning of orphaned worktrees: through the repositories of the workspace,
/// one after the other.
pub open spec fn prune_step(
    settings: SettingsView,
    short_id: Seq<char>,
    state: PruneView,
    answer: AnswerView,
) -> (PruneView, TurnView) {
    match (state, answer) {
        (PruneView::Begin, _) => (
            PruneView::Listing,
            session::asking(QuestionView::Entries { dir: settings.workspace, follow: false }),
        ),
        (PruneView::Listing, AnswerView::Entries(Some(entries), now)) => survey_on(
            settings,
            SurveyView {
                cutoff: cleanup::earlier_by(
                    now,
                    settings.orphan_worktree_max_age_hours * 3600,
                ),
                count: 0,
                rest: entries,
            },
            Seq::empty(),
        ),
        (PruneView::Testing(s), AnswerView::Yes) => (
            PruneView::Looking(s),
            session::asking(
                QuestionView::Entries {
                    dir: cleanup::worktrees_dir(current_repo(settings, s)),
                    follow: false,
                },
            ),
        ),
        (PruneView::Testing(s), _) => survey_next(settings, s, Seq::empty()),
        (PruneView::Looking(s), AnswerView::Entries(Some(entries), _)) => (
            PruneView::Comparing(s, entries),
            session::asking(QuestionView::Run(listing_command(current_repo(settings, s)))),
        ),
        (PruneView::Looking(s), _) => survey_next(settings, s, Seq::empty()),
        (PruneView::Comparing(s, entries), AnswerView::Ran(outcome)) => {
            let active = active_worktrees(outcome);
            let removed = worktrees_to_remove(settings, short_id, s, entries, active);
            let repo = current_repo(settings, s);
            (
                PruneView::Branches(SurveyView { count: s.count + removed.len(), ..s }),
                session::doing(
                    prune_effects(repo, removed),
                    QuestionView::Run(branches_command(repo)),
                ),
            )
        },
        (PruneView::Branches(s), AnswerView::Ran(outcome)) => match git_text(outcome) {
            Some(branches) => (
                PruneView::Checkouts(s, branches),
                session::asking(QuestionView::Run(listing_command(current_repo(settings, s)))),
            ),
            None => survey_next(settings, s, Seq::empty()),
        },
        (PruneView::Checkouts(s, branches), AnswerView::Ran(outcome)) => {
            survey_next(
                settings,
                s,
                branch_deletions(
                    current_repo(settings, s),
                    cleanup::orphaned_branches(branches, listing_text(outcome)),
                ),
            )
        },
        (state, _) => (PruneView::Over(state.count()), session::closing(Seq::empty())),
    }
}

/// Where an answer has worktrees counted back to a moment, there is that moment.
pub open spec fn prune_dated(
    settings: SettingsView,
    state: PruneView,
    answer: AnswerView,
) -> bool {
    match (state, answer) {
        (PruneView::Listing, AnswerView::Entries(Some(_), now)) => cleanup::can_go_back(
            now,
            settings.orphan_worktree_max_age_hours * 3600,
        ),
        _ => true,
    }
}

// ---------------------------------------------------------------------------
// Pruning
// ---------------------------------------------------------------------------

/// On to the next entry that is a directory, after `effects`.
fn go_on(settings: &Settings, survey: Survey, effects: Vec<Effect>) -> (next: (Prune, Turn))
    requires
        survey.at <= survey.entries@.len(),
        survey.count <= settings.max_cleanup_iterations,
    ensures
        (next.0.deep_view(), next.1.deep_view()) == survey_on(
            settings.deep_view(),
            survey.deep_view(),
            effects.deep_view(),
        ),
        next.0.wf(settings.max_cleanup_iterations),
{
    let Survey { cutoff, count, entries, at } = survey;
    let ghost all = entries.deep_view();
    let ghost expected = survey_on(
        settings.deep_view(),
        survey.deep_view(),
        effects.deep_view(),
    );
    if count >= settings.max_cleanup_iterations {
        return (Prune::Over(count), Turn { effects, next: None });
    }
    let mut at: usize = at;
    while at < entries.len()
        invariant
            at <= entries@.len(),
            count < settings.max_cleanup_iterations,
            all == entries.deep_view(),
            expected == survey_on(
                settings.deep_view(),
                survey.deep_view(),
                effects.deep_view(),
            ),
            expected == survey_on(
                settings.deep_view(),
                SurveyView { cutoff, count: count as nat, rest: all.skip(at as int) },
                effects.deep_view(),
            ),
        decreases entries.len() - at,
    {
        if matches!(entries[at].is_dir, Some(true)) {
            let repo: Vec<u8> = path::join(
                settings.workspace.as_slice(),
                entries[at].name.as_slice(),
            );
            let git_path: Vec<u8> = path::join_text(repo.as_slice(), ".git");
            assert(all.skip(at as int)[0] == entries@[at as int].deep_view());
            return (
                Prune::Testing(Survey { cutoff, count, entries, at }),
                Turn { effects, next: Some(Question::Exists(git_path)) },
            );
        }
        assert(all.skip(at as int)[0] == entries@[at as int].deep_view());
        assert(all.skip(at as int).drop_first() =~= all.skip(at + 1));
        at = at + 1;
    }
    (Prune::Over(count), Turn { effects, next: None })
}

/// The current entry is dealt with.
fn go_past(settings: &Settings, survey: Survey, effects: Vec<Effect>) -> (next: (Prune, Turn))
    requires
        survey.wf(settings.max_cleanup_iterations),
    ensures
        (next.0.deep_view(), next.1.deep_view()) == survey_next(
            settings.deep_view(),
            survey.deep_view(),
            effects.deep_view(),
        ),
        next.0.wf(settings.max_cleanup_iterations),
{
    let ghost all = survey.entries.deep_view();
    assert(all.skip(survey.at as int).drop_first() =~= all.skip(survey.at + 1));
    assert(survey.at < survey.entries.len());
    let mut survey = survey;
    survey.at = survey.at + 1;
    go_on(settings, survey, effects)
}

/// The path of the current entry.
fn repo_of(settings: &Settings, survey: &Survey) -> (repo: Vec<u8>)
    requires
        survey.at < survey.entries@.len(),
    ensures
        repo@ == current_repo(settings.deep_view(), survey.deep_view()),
{
    assert(survey.deep_view().rest[0] == survey.entries@[survey.at as int].deep_view());
    path::join(settings.workspace.as_slice(), survey.entries[survey.at].name.as_slice())
}

/// A git command in a repository, whose output is captured.
fn git_in(repo: &[u8], args: &[&str]) -> (i: Invocation)
    ensures
        i.deep_view() == git::git_command(
            seq!["-C"@, path::shown(repo@)] + args.deep_view(),
            Streams::Captured,
        ),
{
    let repo_str = path::from_utf8_lossy(repo);
    let mut all: Vec<String> = Vec::new();
    all.push("-C".to_string());
    all.push(repo_str);
    let mut rest: Vec<String> = text::to_strings(args);
    let ghost tail = rest.deep_view();
    all.append(&mut rest);
    assert(all.deep_view() =~= seq!["-C"@, path::shown(repo@)] + tail);
    Invocation { program: "git".to_string(), args: all, env: None, dir: None, streams: Streams::Captured }
}

/// Git's porcelain listing of the worktrees of a repository.
fn list_worktrees(repo: &[u8]) -> (i: Invocation)
    ensures
        i.deep_view() == listing_command(repo@),
{
    let i = git_in(repo, &["worktree", "list", "--porcelain"]);
    assert(i.deep_view().args =~= listing_command(repo@).args);
    i
}

/// Git's list of the branches of worktrees of a repository.
fn list_branches(repo: &[u8]) -> (i: Invocation)
    ensures
        i.deep_view() == branches_command(repo@),
{
    let i = git_in(repo, &["branch", "--list", "wt/*"]);
    assert(i.deep_view().args =~= branches_command(repo@).args);
    i
}

/// What a git command wrote, where it could be started.
fn text_of(outcome: &Outcome) -> (written: Option<String>)
    ensures
        written.deep_view() == git_text(outcome.deep_view()),
{
    match outcome {
        Outcome::Exited { stdout, .. } => Some(path::from_utf8_lossy(stdout.as_slice())),
        Outcome::NotStarted(_) => None,
    }
}

/// The worktrees that git knows of, by its listing of them.
fn known_worktrees(repo: &[u8], outcome: Outcome) -> (active: Vec<String>)
    ensures
        active.deep_view() == active_worktrees(outcome.deep_view()),
{
    let outcomes: Vec<Outcome> = vec![outcome];
    assert(outcomes.deep_view() =~= seq![outcome.deep_view()]);
    match git::get_active_worktrees(repo, outcomes.as_slice()) {
        Step::Done(active) => active,
        Step::Ask(_) => Vec::new(),
    }
}

/// The deletion of branches.
fn delete_branches(repo: &[u8], branches: &[String]) -> (effects: Vec<Effect>)
    ensures
        effects.deep_view() == branch_deletions(repo@, branches.deep_view()),
{
    let mut effects: Vec<Effect> = session::no_effects();
    let mut i: usize = 0;
    let ghost wanted = branch_deletions(repo@, branches.deep_view());
    assert(wanted.take(0) =~= Seq::<EffectView>::empty());
    while i < branches.len()
        invariant
            i <= branches@.len(),
            wanted == branch_deletions(repo@, branches.deep_view()),
            effects.deep_view() == wanted.take(i as int),
        decreases branches.len() - i,
    {
        let command = git_in(repo, &["branch", "-D", branches[i].as_str()]);
        assert(command.deep_view().args =~= delete_command(repo@, branches@[i as int]@).args);
        session::add_effect(&mut effects, Effect::Run(command));
        assert(wanted.take(i + 1) =~= wanted.take(i as int).push(wanted[i as int]));
        i = i + 1;
    }
    assert(wanted.take(wanted.len() as int) =~= wanted);
    effects
}

/// Prune orphaned worktrees, and the branches they leave. Each call takes the
/// answer to what the call before asked for.
pub fn prune_orphan_worktrees(settings: &Settings, short_id: &str, state: Prune, answer: Answer) -> (
    next: (Prune, Turn))
    requires
        state.wf(settings.max_cleanup_iterations),
        prune_dated(settings.deep_view(), state.deep_view(), answer.deep_view()),
    ensures
        (next.0.deep_view(), next.1.deep_view()) == prune_step(
            settings.deep_view(),
            short_id@,
            state.deep_view(),
            answer.deep_view(),
        ),
        next.0.wf(settings.max_cleanup_iterations),
{
    match (state, answer) {
        (Prune::Begin, _) => (
            Prune::Listing,
            session::ask(
                Question::Entries {
                    dir: path::copy_of(settings.workspace.as_slice()),
                    follow: false,
                },
            ),
        ),
        (Prune::Listing, Answer::Entries(Some(entries), now)) => {
            let cutoff: Moment = cleanup::go_back(
                &now,
                settings.orphan_worktree_max_age_hours * 3600,
            );
            assert(entries.deep_view().skip(0) =~= entries.deep_view());
            go_on(
                settings,
                Survey { cutoff, count: 0, entries, at: 0 },
                session::no_effects(),
            )
        },
        (Prune::Testing(s), Answer::Yes) => {
            let repo: Vec<u8> = repo_of(settings, &s);
            let dir: Vec<u8> = path::join_text(repo.as_slice(), ".worktrees");
            (Prune::Looking(s), session::ask(Question::Entries { dir, follow: false }))
        },
        (Prune::Testing(s), _) => go_past(settings, s, session::no_effects()),
        (Prune::Looking(s), Answer::Entries(Some(entries), _)) => {
            let repo: Vec<u8> = repo_of(settings, &s);
            (
                Prune::Comparing(s, entries),
                session::ask(Question::Run(list_worktrees(repo.as_slice()))),
            )
        },
        (Prune::Looking(s), _) => go_past(settings, s, session::no_effects()),
        (Prune::Comparing(s, entries), Answer::Ran(outcome)) => {
            let repo: Vec<u8> = repo_of(settings, &s);
            let active: Vec<String> = known_worktrees(repo.as_slice(), outcome);
            let dir: Vec<u8> = path::join_text(repo.as_slice(), ".worktrees");
            let removed: Vec<Vec<u8>> = cleanup::find_orphans(
                dir.as_slice(),
                entries.as_slice(),
                active.as_slice(),
                short_id,
                &s.cutoff,
                settings.max_cleanup_iterations - s.count,
            );
            assert(path::views(removed@).len() == removed@.len());
            let mut effects: Vec<Effect> = remove_trees(removed.as_slice());
            session::add_effect(
                &mut effects,
                Effect::PruneStale(path::copy_of(repo.as_slice())),
            );
            session::add_effect(
                &mut effects,
                Effect::CleanEmptyDirs(path::copy_of(repo.as_slice())),
            );
            let mut survey = s;
            survey.count = survey.count + removed.len();
            (
                Prune::Branches(survey),
                Turn { effects, next: Some(Question::Run(list_branches(repo.as_slice()))) },
            )
        },
        (Prune::Branches(s), Answer::Ran(outcome)) => match text_of(&outcome) {
            Some(branches) => {
                let repo: Vec<u8> = repo_of(settings, &s);
                (
                    Prune::Checkouts(s, branches),
                    session::ask(Question::Run(list_worktrees(repo.as_slice()))),
                )
            },
            None => go_past(settings, s, session::no_effects()),
        },
        (Prune::Checkouts(s, branches), Answer::Ran(outcome)) => {
            let repo: Vec<u8> = repo_of(settings, &s);
            let listing = match text_of(&outcome) {
                Some(listing) => listing,
                None => String::new(),
            };
            let orphaned: Vec<String> = cleanup::clean_orphaned_wt_branches(
                branches.as_str(),
                listing.as_str(),
            );
            let effects: Vec<Effect> = delete_branches(repo.as_slice(), orphaned.as_slice());
            go_past(settings, s, effects)
        },
        (state, _) => (Prune::Over(removed_so_far(&state)), session::close()),
    }
}

/// How many worktrees went so far.
fn removed_so_far(state: &Prune) -> (count: usize)
    ensures
        count as nat == state.deep_view().count(),
{
    match state {
        Prune::Begin => 0,
        Prune::Listing => 0,
        Prune::Testing(s) => s.count,
        Prune::Looking(s) => s.count,
        Prune::Comparing(s, _) => s.count,
        Prune::Branches(s) => s.count,
        Prune::Checkouts(s, _) => s.count,
        Prune::Over(count) => *count,
    }
}

// ---------------------------------------------------------------------------
// Recovery
// ---------------------------------------------------------------------------

/// The stages of recovery, in order.
#[derive(Debug, PartialEq, Eq)]
pub enum Stage {
    /// Temporary directories of sessions.
    Dirs,
    /// Markers of processes.
    Markers,
    /// Spec files.
    Specs,
    /// Orphaned worktrees.
    Worktrees,
}

/// How far recovery has come.
#[derive(Debug, PartialEq, Eq)]
pub enum Recovery {
    Begin,
    /// It was asked whether there is time for the stage.
    Timing(Stage),
    /// It was asked what there is to clear away.
    Listing(Stage),
    Pruning(Prune),
    Over,
}

/// The model of a [`Recovery`].
pub enum RecoveryView {
    Begin,
    Timing(Stage),
    Listing(Stage),
    Pruning(PruneView),
    Over,
}

impl DeepView for Recovery {
    type V = RecoveryView;

    open spec fn deep_view(&self) -> RecoveryView {
        match self {
            Recovery::Begin => RecoveryView::Begin,
            Recovery::Timing(stage) => RecoveryView::Timing(*stage),
            Recovery::Listing(stage) => RecoveryView::Listing(*stage),
            Recovery::Pruning(p) => RecoveryView::Pruning(p.deep_view()),
            Recovery::Over => RecoveryView::Over,
        }
    }
}

impl Recovery {
    /// A state that recovery can be in.
    pub open spec fn wf(self, limit: usize) -> bool {
        self matches Recovery::Pruning(p) ==> p.wf(limit)
    }
}

/// How many seconds recovery may take before it begins no other stage.
pub const TIMEOUT_SECS: u64 = 5;

/// Where the temporary directories of sessions are.
pub open spec fn temp_root(settings: SettingsView) -> Seq<u8> {
    path::joined_text(settings.workspace, "."@ + settings.agent + "-tmp"@)
}

/// The pattern of a prefix, a star and a suffix.
pub open spec fn star_pattern(prefix: Seq<char>, suffix: Seq<char>) -> Seq<char> {
    prefix + "*"@ + suffix
}

/// The pattern that spec files match, with the workspace before it.
pub open spec fn spec_file_pattern(settings: SettingsView) -> Seq<char> {
    archive::full_pattern(
        settings.workspace,
        star_pattern(settings.spec_file_prefix, settings.spec_file_suffix),
    )
}

/// A stage begins.
pub open spec fn stage_begin(settings: SettingsView, short_id: Seq<char>, stage: Stage) -> (
    RecoveryView,
    TurnView,
) {
    match stage {
        Stage::Dirs => (
            RecoveryView::Listing(stage),
            session::asking(
                QuestionView::Entries {
                    dir: temp_root(settings),
                    follow: false,
                },
            ),
        ),
        Stage::Markers => (
            RecoveryView::Listing(stage),
            session::asking(
                QuestionView::Entries { dir: settings.pid_marker_dir, follow: false },
            ),
        ),
        Stage::Specs => (
            RecoveryView::Listing(stage),
            session::asking(
                QuestionView::Entries {
                    dir: utf8::encode_utf8(glob::pattern_dir(spec_file_pattern(settings))),
                    follow: true,
                },
            ),
        ),
        Stage::Worktrees => {
            let next = prune_step(settings, short_id, PruneView::Begin, AnswerView::Yes);
            (RecoveryView::Pruning(next.0), next.1)
        },
    }
}

/// A stage is over, and the next is up if there is time for it.
pub open spec fn stage_end(stage: Stage, effects: Seq<EffectView>) -> (RecoveryView, TurnView) {
    match stage {
        Stage::Dirs => (
            RecoveryView::Timing(Stage::Markers),
            session::doing(effects, QuestionView::Elapsed),
        ),
        Stage::Markers => (
            RecoveryView::Timing(Stage::Specs),
            session::doing(effects, QuestionView::Elapsed),
        ),
        Stage::Specs => (
            RecoveryView::Timing(Stage::Worktrees),
            session::doing(effects, QuestionView::Elapsed),
        ),
        Stage::Worktrees => (RecoveryView::Over, session::closing(effects)),
    }
}

/// What a stage clears away, given the listing it asked for.
pub open spec fn stage_removals(
    settings: SettingsView,
    stage: Stage,
    entries: Seq<ListedView>,
    now: Moment,
) -> Seq<EffectView> {
    let limit = settings.max_cleanup_iterations;
    match stage {
        Stage::Dirs => {
            let cutoff = cleanup::earlier_by(now, settings.stale_temp_dir_max_age_days * 86400);
            tree_removals(cleanup::stale_dirs(temp_root(settings), entries, cutoff, limit))
        },
        Stage::Markers => {
            let cutoff = cleanup::earlier_by(now, settings.stale_pid_marker_max_age_days * 86400);
            file_removals(
                cleanup::stale_files(settings.pid_marker_dir, entries, cutoff, limit),
            )
        },
        Stage::Specs => {
            let cutoff = cleanup::earlier_by(now, settings.stale_spec_file_max_age_days * 86400);
            let full = spec_file_pattern(settings);
            file_removals(
                cleanup::stale_matches(
                    glob::pattern_dir(full),
                    glob::pattern_name(full),
                    entries,
                    cutoff,
                    limit,
                ),
            )
        },
        Stage::Worktrees => Seq::empty(),
    }
}

/// There is the moment that a stage counts back to from `now`.
pub open spec fn stage_dated(settings: SettingsView, stage: Stage, now: Moment) -> bool {
    match stage {
        Stage::Dirs => cleanup::can_go_back(now, settings.stale_temp_dir_max_age_days * 86400),
        Stage::Markers => cleanup::can_go_back(
            now,
            settings.stale_pid_marker_max_age_days * 86400,
        ),
        Stage::Specs => cleanup::can_go_back(now, settings.stale_spec_file_max_age_days * 86400),
        Stage::Worktrees => true,
    }
}

/// Where an answer has a stage count back to a moment, there is that moment.
pub open spec fn recovery_dated(
    settings: SettingsView,
    state: RecoveryView,
    answer: AnswerView,
) -> bool {
    match (state, answer) {
        (RecoveryView::Listing(stage), AnswerView::Entries(Some(_), now)) => stage_dated(
            settings,
            stage,
            now,
        ),
        (RecoveryView::Pruning(p), _) => prune_dated(settings, p, answer),
        _ => true,
    }
}

/// Recovery: the stages in order, each only if there is time left when it is up.
pub open spec fn recovery_step(
    settings: SettingsView,
    short_id: Seq<char>,
    state: RecoveryView,
    answer: AnswerView,
) -> (RecoveryView, TurnView) {
    match (state, answer) {
        (RecoveryView::Begin, _) => (
            RecoveryView::Timing(Stage::Dirs),
            session::asking(QuestionView::Elapsed),
        ),
        (RecoveryView::Timing(stage), AnswerView::Seconds(elapsed)) => if elapsed < TIMEOUT_SECS {
            stage_begin(settings, short_id, stage)
        } else {
            stage_end(stage, Seq::empty())
        },
        (RecoveryView::Listing(stage), AnswerView::Entries(Some(entries), now)) => stage_end(
            stage,
            stage_removals(settings, stage, entries, now),
        ),
        (RecoveryView::Listing(stage), _) => stage_end(stage, Seq::empty()),
        (RecoveryView::Pruning(p), _) => {
            let next = prune_step(settings, short_id, p, answer);
            (RecoveryView::Pruning(next.0), next.1)
        },
        _ => (RecoveryView::Over, session::closing(Seq::empty())),
    }
}

/// Whether there is a moment `n` times `unit` seconds before `now`.
fn reaches_back(now: &Moment, n: u64, unit: u64) -> (yes: bool)
    requires
        unit <= 86400,
    ensures
        yes == cleanup::can_go_back(*now, n * unit),
{
    assert(n * unit <= u64::MAX * 86400) by (nonlinear_arith)
        requires
            n <= u64::MAX,
            unit <= 86400,
    ;
    assert(n * unit >= 0) by (nonlinear_arith);
    let age: i128 = n as i128 * unit as i128;
    age <= u64::MAX as i128 && i64::MIN as i128 <= now.secs as i128 - age
}

/// Whether an answer can be handed to [`crash_recovery`]: where it has something
/// counted back to a moment, there is that moment.
pub fn can_date(settings: &Settings, state: &Recovery, answer: &Answer) -> (yes: bool)
    ensures
        yes == recovery_dated(settings.deep_view(), state.deep_view(), answer.deep_view()),
{
    let now: &Moment = match answer {
        Answer::Entries(Some(_), now) => now,
        _ => return true,
    };
    match state {
        Recovery::Listing(Stage::Dirs) => reaches_back(
            now,
            settings.stale_temp_dir_max_age_days,
            86400,
        ),
        Recovery::Listing(Stage::Markers) => reaches_back(
            now,
            settings.stale_pid_marker_max_age_days,
            86400,
        ),
        Recovery::Listing(Stage::Specs) => reaches_back(
            now,
            settings.stale_spec_file_max_age_days,
            86400,
        ),
        Recovery::Pruning(Prune::Listing) => reaches_back(
            now,
            settings.orphan_worktree_max_age_hours,
            3600,
        ),
        _ => true,
    }
}

/// The pattern of a prefix, a star and a suffix.
pub fn star(prefix: &str, suffix: &str) -> (pattern: String)
    ensures
        pattern@ == star_pattern(prefix@, suffix@),
{
    let mut pattern = prefix.to_string();
    pattern.append("*");
    pattern.append(suffix);
    pattern
}

/// Where the temporary directories of sessions are.
fn temp_root_of(settings: &Settings) -> (dir: Vec<u8>)
    ensures
        dir@ == temp_root(settings.deep_view()),
{
    let name = output::concat3(".", settings.agent.as_str(), "-tmp");
    path::join_text(settings.workspace.as_slice(), name.as_str())
}

/// A stage begins.
fn begin_stage(settings: &Settings, short_id: &str, stage: Stage) -> (next: (Recovery, Turn))
    ensures
        (next.0.deep_view(), next.1.deep_view()) == stage_begin(
            settings.deep_view(),
            short_id@,
            stage,
        ),
        next.0.wf(settings.max_cleanup_iterations),
{
    match stage {
        Stage::Dirs => {
            let dir: Vec<u8> = temp_root_of(settings);
            (
                Recovery::Listing(Stage::Dirs),
                session::ask(Question::Entries { dir, follow: false }),
            )
        },
        Stage::Markers => {
            let dir: Vec<u8> = path::copy_of(settings.pid_marker_dir.as_slice());
            (
                Recovery::Listing(Stage::Markers),
                session::ask(Question::Entries { dir, follow: false }),
            )
        },
        Stage::Specs => {
            let pattern = star(
                settings.spec_file_prefix.as_str(),
                settings.spec_file_suffix.as_str(),
            );
            let full = archive::pattern_in(settings.workspace.as_slice(), pattern.as_str());
            let dir: Vec<u8> = glob::glob_dir(full.as_str());
            (
                Recovery::Listing(Stage::Specs),
                session::ask(Question::Entries { dir, follow: true }),
            )
        },
        Stage::Worktrees => {
            let (p, turn) = prune_orphan_worktrees(
                settings,
                short_id,
                Prune::Begin,
                Answer::Yes,
            );
            (Recovery::Pruning(p), turn)
        },
    }
}

/// A stage is over.
fn end_stage(stage: Stage, effects: Vec<Effect>) -> (next: (Recovery, Turn))
    ensures
        (next.0.deep_view(), next.1.deep_view()) == stage_end(stage, effects.deep_view()),
        next.0 !is Pruning,
{
    match stage {
        Stage::Dirs => (
            Recovery::Timing(Stage::Markers),
            Turn { effects, next: Some(Question::Elapsed) },
        ),
        Stage::Markers => (
            Recovery::Timing(Stage::Specs),
            Turn { effects, next: Some(Question::Elapsed) },
        ),
        Stage::Specs => (
            Recovery::Timing(Stage::Worktrees),
            Turn { effects, next: Some(Question::Elapsed) },
        ),
        Stage::Worktrees => (Recovery::Over, Turn { effects, next: None }),
    }
}

/// What a stage clears away.
fn clear_away(settings: &Settings, stage: &Stage, entries: &[Listed], now: &Moment) -> (effects: Vec<
    Effect,
>)
    requires
        stage_dated(settings.deep_view(), *stage, *now),
    ensures
        effects.deep_view() == stage_removals(
            settings.deep_view(),
            *stage,
            entries.deep_view(),
            *now,
        ),
{
    let limit: usize = settings.max_cleanup_iterations;
    match stage {
        Stage::Dirs => {
            let dir: Vec<u8> = temp_root_of(settings);
            let stale: Vec<Vec<u8>> = cleanup::clean_stale_dirs(
                dir.as_slice(),
                Some(entries),
                now,
                settings.stale_temp_dir_max_age_days,
                limit,
            );
            remove_trees(stale.as_slice())
        },
        Stage::Markers => {
            let stale: Vec<Vec<u8>> = cleanup::clean_stale_files(
                settings.pid_marker_dir.as_slice(),
                Some(entries),
                now,
                settings.stale_pid_marker_max_age_days,
                limit,
            );
            remove_files(stale.as_slice())
        },
        Stage::Specs => {
            let pattern = star(
                settings.spec_file_prefix.as_str(),
                settings.spec_file_suffix.as_str(),
            );
            let stale: Vec<Vec<u8>> = cleanup::clean_stale_glob(
                settings.workspace.as_slice(),
                pattern.as_str(),
                Some(entries),
                now,
                settings.stale_spec_file_max_age_days,
                limit,
            );
            remove_files(stale.as_slice())
        },
        Stage::Worktrees => session::no_effects(),
    }
}

/// Recover from what crashed sessions left. Each call takes the answer to what the
/// call before asked for.
pub fn crash_recovery(settings: &Settings, short_id: &str, state: Recovery, answer: Answer) -> (next:
    (Recovery, Turn))
    requires
        state.wf(settings.max_cleanup_iterations),
        recovery_dated(settings.deep_view(), state.deep_view(), answer.deep_view()),
    ensures
        (next.0.deep_view(), next.1.deep_view()) == recovery_step(
            settings.deep_view(),
            short_id@,
            state.deep_view(),
            answer.deep_view(),
        ),
        next.0.wf(settings.max_cleanup_iterations),
{
    match (state, answer) {
        (Recovery::Begin, _) => (Recovery::Timing(Stage::Dirs), session::ask(Question::Elapsed)),
        (Recovery::Timing(stage), Answer::Seconds(elapsed)) => if elapsed < TIMEOUT_SECS {
            begin_stage(settings, short_id, stage)
        } else {
            end_stage(stage, session::no_effects())
        },
        (Recovery::Listing(stage), Answer::Entries(Some(entries), now)) => {
            let effects: Vec<Effect> = clear_away(settings, &stage, entries.as_slice(), &now);
            end_stage(stage, effects)
        },
        (Recovery::Listing(stage), _) => end_stage(stage, session::no_effects()),
        (Recovery::Pruning(p), answer) => {
            let (p, turn) = prune_orphan_worktrees(settings, short_id, p, answer);
            (Recovery::Pruning(p), turn)
        },
        _ => (Recovery::Over, session::close()),
    }
}

// ---------------------------------------------------------------------------
// Laws
// ---------------------------------------------------------------------------

/// How many directories effects remove.
pub open spec fn trees_removed(effects: Seq<EffectView>) -> nat {
    effects.filter(|e: EffectView| e is RemoveTree).len()
}

/// Effects none of which removes a directory.
proof fn lemma_no_tree(effects: Seq<EffectView>)
    requires
        forall|i: int| 0 <= i < effects.len() ==> !(#[trigger] effects[i] is RemoveTree),
    ensures
        trees_removed(effects) == 0,
    decreases effects.len(),
{
    reveal(Seq::filter);
    if effects.len() > 0 {
        lemma_no_tree(effects.drop_last());
    }
}

/// Effects each of which removes a directory.
proof fn lemma_all_trees(paths: Seq<Seq<u8>>)
    ensures
        trees_removed(tree_removals(paths)) == paths.len(),
    decreases paths.len(),
{
    reveal(Seq::filter);
    if paths.len() > 0 {
        lemma_all_trees(paths.drop_last());
        assert(tree_removals(paths).drop_last() =~= tree_removals(paths.drop_last()));
    }
}

/// Going on to another entry changes nothing about what was removed.
pub proof fn lemma_survey_on(settings: SettingsView, s: SurveyView, effects: Seq<EffectView>)
    ensures
        survey_on(settings, s, effects).0.count() == s.count,
        survey_on(settings, s, effects).1.effects == effects,
    decreases s.rest.len(),
{
    if !(s.count >= settings.max_cleanup_iterations || s.rest.len() == 0) && s.rest[0].is_dir
        != Some(true) {
        lemma_survey_on(settings, SurveyView { rest: s.rest.drop_first(), ..s }, effects);
    }
}

/// The pruning of worktrees keeps count: with every step the count grows by the
/// number of directories that the step removes, and it never exceeds the limit.
pub proof fn law_pruning_keeps_count(
    settings: SettingsView,
    short_id: Seq<char>,
    state: PruneView,
    answer: AnswerView,
)
    requires
        state.count() <= settings.max_cleanup_iterations,
    ensures
        ({
            let next = prune_step(settings, short_id, state, answer);
            &&& next.0.count() == state.count() + trees_removed(next.1.effects)
            &&& next.0.count() <= settings.max_cleanup_iterations
        }),
{
    let next = prune_step(settings, short_id, state, answer);
    let none = Seq::<EffectView>::empty();
    lemma_no_tree(none);
    match (state, answer) {
        (PruneView::Listing, AnswerView::Entries(Some(entries), now)) => {
            lemma_survey_on(
                settings,
                SurveyView {
                    cutoff: cleanup::earlier_by(
                        now,
                        settings.orphan_worktree_max_age_hours * 3600,
                    ),
                    count: 0,
                    rest: entries,
                },
                none,
            );
        },
        (PruneView::Testing(s), _) => {
            lemma_survey_on(settings, SurveyView { rest: s.rest.drop_first(), ..s }, none);
        },
        (PruneView::Looking(s), _) => {
            lemma_survey_on(settings, SurveyView { rest: s.rest.drop_first(), ..s }, none);
        },
        (PruneView::Comparing(s, entries), AnswerView::Ran(outcome)) => {
            let active = active_worktrees(outcome);
            let removed = worktrees_to_remove(settings, short_id, s, entries, active);
            let repo = current_repo(settings, s);
            let first = tree_removals(removed);
            let second = first.push(EffectView::PruneStale(repo));
            lemma_all_trees(removed);
            let is_tree = |e: EffectView| e is RemoveTree;
            first.lemma_filter_push(EffectView::PruneStale(repo), is_tree);
            second.lemma_filter_push(EffectView::CleanEmptyDirs(repo), is_tree);
        },
        (PruneView::Branches(s), _) => {
            lemma_survey_on(settings, SurveyView { rest: s.rest.drop_first(), ..s }, none);
        },
        (PruneView::Checkouts(s, branches), AnswerView::Ran(outcome)) => {
            let effects = branch_deletions(
                current_repo(settings, s),
                cleanup::orphaned_branches(branches, listing_text(outcome)),
            );
            lemma_no_tree(effects);
            lemma_survey_on(settings, SurveyView { rest: s.rest.drop_first(), ..s }, effects);
        },
        _ => {},
    }
}

/// Pruning removes a directory only once git has said which worktrees it knows of,
/// and then only an orphan among the worktrees of the current repository: listed as
/// a directory, not the current session's, last modified before the cutoff, and none
/// that git knows of.
pub proof fn law_pruning_removes_only_orphans(
    settings: SettingsView,
    short_id: Seq<char>,
    state: PruneView,
    answer: AnswerView,
    removed: Seq<u8>,
)
    requires
        prune_step(settings, short_id, state, answer).1.effects.contains(
            EffectView::RemoveTree(removed),
        ),
    ensures
        state matches PruneView::Comparing(s, entries) && answer matches AnswerView::Ran(outcome)
            && {
            let dir = cleanup::worktrees_dir(current_repo(settings, s));
            let active = active_worktrees(outcome);
            exists|e: ListedView|
                {
                    &&& #[trigger] entries.contains(e)
                    &&& removed == path::joined(dir, e.name)
                    &&& cleanup::is_orphan(e, dir, active, short_id, s.cutoff)
                }
        },
{
    let effects = prune_step(settings, short_id, state, answer).1.effects;
    let none = Seq::<EffectView>::empty();
    let i = choose|i: int|
        0 <= i < effects.len() && effects[i] == EffectView::RemoveTree(removed);
    match (state, answer) {
        (PruneView::Comparing(s, entries), AnswerView::Ran(outcome)) => {
            let dir = cleanup::worktrees_dir(current_repo(settings, s));
            let active = active_worktrees(outcome);
            let paths = worktrees_to_remove(settings, short_id, s, entries, active);
            assert(effects[i] == tree_removals(paths)[i]);
            assert(paths[i] == removed);
            assert(paths.contains(removed));
            cleanup::lemma_selected_from(
                dir,
                entries,
                |e: ListedView| cleanup::is_orphan(e, dir, active, short_id, s.cutoff),
                (settings.max_cleanup_iterations - s.count) as nat,
                removed,
            );
        },
        (PruneView::Listing, AnswerView::Entries(Some(entries), now)) => {
            lemma_survey_on(
                settings,
                SurveyView {
                    cutoff: cleanup::earlier_by(
                        now,
                        settings.orphan_worktree_max_age_hours * 3600,
                    ),
                    count: 0,
                    rest: entries,
                },
                none,
            );
        },
        (PruneView::Testing(s), _) => {
            lemma_survey_on(settings, SurveyView { rest: s.rest.drop_first(), ..s }, none);
        },
        (PruneView::Looking(s), _) => {
            lemma_survey_on(settings, SurveyView { rest: s.rest.drop_first(), ..s }, none);
        },
        (PruneView::Branches(s), _) => {
            lemma_survey_on(settings, SurveyView { rest: s.rest.drop_first(), ..s }, none);
        },
        (PruneView::Checkouts(s, branches), AnswerView::Ran(outcome)) => {
            lemma_survey_on(
                settings,
                SurveyView { rest: s.rest.drop_first(), ..s },
                branch_deletions(
                    current_repo(settings, s),
                    cleanup::orphaned_branches(branches, listing_text(outcome)),
                ),
            );
        },
        _ => {},
    }
}

/// Pruning runs a command, without asking for what comes of it, only to delete a
/// branch of the current repository that git listed and that no worktree has checked
/// out.
pub proof fn law_pruning_deletes_only_orphaned_branches(
    settings: SettingsView,
    short_id: Seq<char>,
    state: PruneView,
    answer: AnswerView,
    command: InvocationView,
)
    requires
        prune_step(settings, short_id, state, answer).1.effects.contains(
            EffectView::Run(command),
        ),
    ensures
        state matches PruneView::Checkouts(s, branches) && answer matches AnswerView::Ran(outcome)
            && exists|branch: Seq<char>|
            {
                &&& #[trigger] cleanup::orphaned_branches(branches, listing_text(outcome)).contains(
                    branch,
                )
                &&& command == delete_command(current_repo(settings, s), branch)
            },
{
    let effects = prune_step(settings, short_id, state, answer).1.effects;
    let none = Seq::<EffectView>::empty();
    let i = choose|i: int| 0 <= i < effects.len() && effects[i] == EffectView::Run(command);
    match (state, answer) {
        (PruneView::Listing, AnswerView::Entries(Some(entries), now)) => {
            lemma_survey_on(
                settings,
                SurveyView {
                    cutoff: cleanup::earlier_by(
                        now,
                        settings.orphan_worktree_max_age_hours * 3600,
                    ),
                    count: 0,
                    rest: entries,
                },
                none,
            );
        },
        (PruneView::Testing(s), _) => {
            lemma_survey_on(settings, SurveyView { rest: s.rest.drop_first(), ..s }, none);
        },
        (PruneView::Looking(s), _) => {
            lemma_survey_on(settings, SurveyView { rest: s.rest.drop_first(), ..s }, none);
        },
        (PruneView::Branches(s), _) => {
            lemma_survey_on(settings, SurveyView { rest: s.rest.drop_first(), ..s }, none);
        },
        (PruneView::Checkouts(s, branches), AnswerView::Ran(outcome)) => {
            let orphaned = cleanup::orphaned_branches(branches, listing_text(outcome));
            let repo = current_repo(settings, s);
            lemma_survey_on(
                settings,
                SurveyView { rest: s.rest.drop_first(), ..s },
                branch_deletions(repo, orphaned),
            );
            assert(effects[i] == EffectView::Run(delete_command(repo, orphaned[i])));
            assert(orphaned.contains(orphaned[i]));
        },
        _ => {},
    }
}

/// Where the time is up, a stage clears nothing away and is passed over.
pub proof fn law_no_stage_after_timeout(
    settings: SettingsView,
    short_id: Seq<char>,
    stage: Stage,
    elapsed: u64,
)
    requires
        elapsed >= TIMEOUT_SECS,
    ensures
        ({
            let next = recovery_step(
                settings,
                short_id,
                RecoveryView::Timing(stage),
                AnswerView::Seconds(elapsed),
            );
            &&& next.1.effects == Seq::<EffectView>::empty()
            &&& next.1.next is None || next.1.next == Some(QuestionView::Elapsed)
        }),
{
}

/// Every stage but the last is followed by the question whether there is time for
/// the next, whatever comes of it.
pub proof fn law_time_is_checked_before_each_stage(
    settings: SettingsView,
    short_id: Seq<char>,
    answer: AnswerView,
)
    ensures
        recovery_step(settings, short_id, RecoveryView::Begin, answer) == (
            RecoveryView::Timing(Stage::Dirs),
            session::asking(QuestionView::Elapsed),
        ),
        recovery_step(settings, short_id, RecoveryView::Listing(Stage::Dirs), answer).0
            == RecoveryView::Timing(Stage::Markers),
        recovery_step(settings, short_id, RecoveryView::Listing(Stage::Markers), answer).0
            == RecoveryView::Timing(Stage::Specs),
        recovery_step(settings, short_id, RecoveryView::Listing(Stage::Specs), answer).0
            == RecoveryView::Timing(Stage::Worktrees),
{
}

/// What git is asked about a repository, and how a branch of it is deleted.
pub proof fn law_commands(repo: Seq<u8>, branch: Seq<char>)
    ensures
        listing_command(repo) == (InvocationView {
                program: "git"@,
                args: seq!["-C"@, path::shown(repo), "worktree"@, "list"@, "--porcelain"@],
                env: None,
                dir: None,
                streams: Streams::Captured,
            }),
        branches_command(repo) == (InvocationView {
                program: "git"@,
                args: seq!["-C"@, path::shown(repo), "branch"@, "--list"@, "wt/*"@],
                env: None,
                dir: None,
                streams: Streams::Captured,
            }),
        delete_command(repo, branch) == (InvocationView {
                program: "git"@,
                args: seq!["-C"@, path::shown(repo), "branch"@, "-D"@, branch],
                env: None,
                dir: None,
                streams: Streams::Captured,
            }),
{
}

/// What a git command wrote counts, however it ended, where it could be started.
pub proof fn law_git_text(stdout: Seq<u8>, success: bool, status: Seq<char>, why: Seq<char>)
    ensures
        git_text(OutcomeView::Exited { success, status, stdout }) == Some(path::shown(stdout)),
        listing_text(OutcomeView::Exited { success, status, stdout }) == path::shown(stdout),
        active_worktrees(OutcomeView::Exited { success, status, stdout })
            == git::listed_worktrees(path::shown(stdout)),
        git_text(OutcomeView::NotStarted(why)) is None,
        listing_text(OutcomeView::NotStarted(why)).len() == 0,
        active_worktrees(OutcomeView::NotStarted(why)).len() == 0,
{
}

/// Removals and deletions are one for each path and each branch, in order and in full.
pub proof fn law_removals_one_by_one(
    repo: Seq<u8>,
    paths: Seq<Seq<u8>>,
    branches: Seq<Seq<char>>,
)
    ensures
        file_removals(paths).len() == paths.len(),
        forall|i: int|
            0 <= i < paths.len() ==> #[trigger] file_removals(paths)[i] == EffectView::Remove(
                paths[i],
            ),
        tree_removals(paths).len() == paths.len(),
        forall|i: int|
            0 <= i < paths.len() ==> #[trigger] tree_removals(paths)[i]
                == EffectView::RemoveTree(paths[i]),
        branch_deletions(repo, branches).len() == branches.len(),
        forall|i: int|
            0 <= i < branches.len() ==> #[trigger] branch_deletions(repo, branches)[i]
                == EffectView::Run(
                (InvocationView {
                    program: "git"@,
                    args: seq!["-C"@, path::shown(repo), "branch"@, "-D"@, branches[i]],
                    env: None,
                    dir: None,
                    streams: Streams::Captured,
                }),
            ),
{
}

/// On the way to the entry at `i`, the first of `s` that is a directory.
proof fn lemma_on_to_directory(
    settings: SettingsView,
    s: SurveyView,
    effects: Seq<EffectView>,
    i: int,
)
    requires
        0 <= i < s.rest.len(),
        s.rest[i].is_dir == Some(true),
        forall|j: int| 0 <= j < i ==> (#[trigger] s.rest[j]).is_dir != Some(true),
        s.count < settings.max_cleanup_iterations,
    ensures
        survey_on(settings, s, effects) == (
            PruneView::Testing(SurveyView { rest: s.rest.skip(i), ..s }),
            TurnView {
                effects,
                next: Some(
                    QuestionView::Exists(
                        path::joined_text(
                            path::joined(settings.workspace, s.rest[i].name),
                            ".git"@,
                        ),
                    ),
                ),
            },
        ),
    decreases i,
{
    if i == 0 {
        assert(s.rest.skip(0) =~= s.rest);
    } else {
        let rest = s.rest.drop_first();
        assert(s.rest[0].is_dir != Some(true));
        assert forall|j: int| 0 <= j < i - 1 implies (#[trigger] rest[j]).is_dir != Some(true) by {
            assert(rest[j] == s.rest[j + 1]);
        }
        lemma_on_to_directory(settings, SurveyView { rest, ..s }, effects, i - 1);
        assert(rest.skip(i - 1) =~= s.rest.skip(i));
    }
}

/// Where no directory is left, or enough was removed, the walk is over.
proof fn lemma_no_directory_left(
    settings: SettingsView,
    s: SurveyView,
    effects: Seq<EffectView>,
)
    requires
        s.count >= settings.max_cleanup_iterations || forall|j: int|
            0 <= j < s.rest.len() ==> (#[trigger] s.rest[j]).is_dir != Some(true),
    ensures
        survey_on(settings, s, effects) == (
            PruneView::Over(s.count),
            TurnView { effects, next: None },
        ),
    decreases s.rest.len(),
{
    if s.count < settings.max_cleanup_iterations && s.rest.len() > 0 {
        let rest = s.rest.drop_first();
        assert(s.rest[0].is_dir != Some(true));
        assert forall|j: int| 0 <= j < rest.len() implies (#[trigger] rest[j]).is_dir != Some(
            true,
        ) by {
            assert(rest[j] == s.rest[j + 1]);
        }
        lemma_no_directory_left(settings, SurveyView { rest, ..s }, effects);
    }
}

/// Pruning begins with the entries of the workspace. The first of them that is a directory is
/// the first of which it is asked whether it is a repository, whatever its name; worktrees go
/// that are so many hours old. Where there is no directory, pruning is over.
pub proof fn law_pruning_begins(
    settings: SettingsView,
    short_id: Seq<char>,
    answer: AnswerView,
    entries: Seq<ListedView>,
    now: Moment,
    i: int,
)
    ensures
        prune_step(settings, short_id, PruneView::Begin, answer) == (
            PruneView::Listing,
            TurnView {
                effects: Seq::empty(),
                next: Some(QuestionView::Entries { dir: settings.workspace, follow: false }),
            },
        ),
        0 <= i < entries.len() && entries[i].is_dir == Some(true) && (forall|j: int|
            0 <= j < i ==> (#[trigger] entries[j]).is_dir != Some(true))
            && settings.max_cleanup_iterations > 0 ==> prune_step(
            settings,
            short_id,
            PruneView::Listing,
            AnswerView::Entries(Some(entries), now),
        ) == (
            PruneView::Testing(
                SurveyView {
                    cutoff: Moment {
                        secs: (now.secs - settings.orphan_worktree_max_age_hours * 60 * 60) as i64,
                        nanos: now.nanos,
                    },
                    count: 0,
                    rest: entries.skip(i),
                },
            ),
            TurnView {
                effects: Seq::empty(),
                next: Some(
                    QuestionView::Exists(
                        path::joined_text(
                            path::joined(settings.workspace, entries[i].name),
                            ".git"@,
                        ),
                    ),
                ),
            },
        ),
        (forall|j: int| 0 <= j < entries.len() ==> (#[trigger] entries[j]).is_dir != Some(true))
            || settings.max_cleanup_iterations == 0 ==> prune_step(
            settings,
            short_id,
            PruneView::Listing,
            AnswerView::Entries(Some(entries), now),
        ) == (PruneView::Over(0), TurnView { effects: Seq::empty(), next: None }),
{
    let s = SurveyView {
        cutoff: cleanup::earlier_by(now, settings.orphan_worktree_max_age_hours * 3600),
        count: 0,
        rest: entries,
    };
    if 0 <= i < entries.len() && entries[i].is_dir == Some(true) && (forall|j: int|
        0 <= j < i ==> (#[trigger] entries[j]).is_dir != Some(true))
        && settings.max_cleanup_iterations > 0 {
        lemma_on_to_directory(settings, s, Seq::empty(), i);
    }
    if (forall|j: int| 0 <= j < entries.len() ==> (#[trigger] entries[j]).is_dir != Some(true))
        || settings.max_cleanup_iterations == 0 {
        lemma_no_directory_left(settings, s, Seq::empty());
    }
}

/// Of a repository, whatever its name, it is asked what is among its worktrees, then which of
/// them git knows of, and, once the orphans are gone, which branches it has and which of those
/// are checked out.
pub proof fn law_repository_is_looked_into(
    settings: SettingsView,
    short_id: Seq<char>,
    s: SurveyView,
    entries: Seq<ListedView>,
    now: Moment,
    outcome: OutcomeView,
    stdout: Seq<u8>,
    success: bool,
    status: Seq<char>,
)
    requires
        s.rest.len() > 0,
    ensures
        ({
            let repo = path::joined(settings.workspace, s.rest[0].name);
            let listing = InvocationView {
                program: "git"@,
                args: seq!["-C"@, path::shown(repo), "worktree"@, "list"@, "--porcelain"@],
                env: None,
                dir: None,
                streams: Streams::Captured,
            };
            &&& prune_step(settings, short_id, PruneView::Testing(s), AnswerView::Yes) == (
                PruneView::Looking(s),
                TurnView {
                    effects: Seq::empty(),
                    next: Some(
                        QuestionView::Entries {
                            dir: path::joined_text(repo, ".worktrees"@),
                            follow: false,
                        },
                    ),
                },
            )
            &&& prune_step(
                settings,
                short_id,
                PruneView::Looking(s),
                AnswerView::Entries(Some(entries), now),
            ) == (
                PruneView::Comparing(s, entries),
                TurnView { effects: Seq::empty(), next: Some(QuestionView::Run(listing)) },
            )
            &&& prune_step(
                settings,
                short_id,
                PruneView::Comparing(s, entries),
                AnswerView::Ran(outcome),
            ).1.next == Some(
                QuestionView::Run(
                    InvocationView {
                        program: "git"@,
                        args: seq!["-C"@, path::shown(repo), "branch"@, "--list"@, "wt/*"@],
                        env: None,
                        dir: None,
                        streams: Streams::Captured,
                    },
                ),
            )
            &&& prune_step(
                settings,
                short_id,
                PruneView::Branches(s),
                AnswerView::Ran(OutcomeView::Exited { success, status, stdout }),
            ) == (
                PruneView::Checkouts(s, path::shown(stdout)),
                TurnView { effects: Seq::empty(), next: Some(QuestionView::Run(listing)) },
            )
        }),
{
}

/// Once git has said which worktrees it knows of, the effects are removals of directories and
/// then two more: git is to forget what is gone, and empty directories go. The count goes up by
/// the removals and stays within the limit, and the walk stays where it is.
pub proof fn law_orphans_are_counted(
    settings: SettingsView,
    short_id: Seq<char>,
    s: SurveyView,
    entries: Seq<ListedView>,
    outcome: OutcomeView,
)
    requires
        s.rest.len() > 0,
        s.count <= settings.max_cleanup_iterations,
    ensures
        ({
            let repo = path::joined(settings.workspace, s.rest[0].name);
            let next = prune_step(
                settings,
                short_id,
                PruneView::Comparing(s, entries),
                AnswerView::Ran(outcome),
            );
            let effects = next.1.effects;
            let n = effects.len() - 2;
            &&& n >= 0
            &&& forall|i: int| 0 <= i < n ==> #[trigger] effects[i] is RemoveTree
            &&& effects[n] == EffectView::PruneStale(repo)
            &&& effects[n + 1] == EffectView::CleanEmptyDirs(repo)
            &&& s.count + n <= settings.max_cleanup_iterations
            &&& next.0 == PruneView::Branches(
                SurveyView { cutoff: s.cutoff, count: (s.count + n) as nat, rest: s.rest },
            )
        }),
{
    let removed = worktrees_to_remove(settings, short_id, s, entries, active_worktrees(outcome));
    let repo = path::joined(settings.workspace, s.rest[0].name);
    let effects = prune_effects(repo, removed);
    assert(tree_removals(removed).len() == removed.len());
    assert forall|i: int| 0 <= i < removed.len() implies #[trigger] effects[i] is RemoveTree by {
        assert(effects[i] == tree_removals(removed)[i]);
    }
}

/// Every listed directory of a repository that is not the session's, was last modified before
/// the cutoff and that no path in git's listing leads to, slashes at the end aside, is
/// removed, unless as many went as may.
pub proof fn law_every_orphan_goes(
    settings: SettingsView,
    short_id: Seq<char>,
    s: SurveyView,
    entries: Seq<ListedView>,
    stdout: Seq<u8>,
    success: bool,
    status: Seq<char>,
    e: ListedView,
)
    requires
        s.rest.len() > 0,
        s.count <= settings.max_cleanup_iterations,
        entries.contains(e),
        e.is_dir == Some(true),
        path::shown(e.name) != short_id,
        e.modified matches Some(m) && (m.secs < s.cutoff.secs || (m.secs == s.cutoff.secs && m.nanos
            < s.cutoff.nanos)),
        ({
            let repo = path::joined(settings.workspace, s.rest[0].name);
            let wt = path::joined(path::joined_text(repo, ".worktrees"@), e.name);
            let known = git::listed_worktrees(path::shown(stdout));
            forall|i: int|
                0 <= i < known.len() ==> text::trim_end_char(#[trigger] known[i], '/')
                    != text::trim_end_char(path::shown(wt), '/')
        }),
    ensures
        ({
            let repo = path::joined(settings.workspace, s.rest[0].name);
            let wt = path::joined(path::joined_text(repo, ".worktrees"@), e.name);
            let effects = prune_step(
                settings,
                short_id,
                PruneView::Comparing(s, entries),
                AnswerView::Ran(OutcomeView::Exited { success, status, stdout }),
            ).1.effects;
            effects.contains(EffectView::RemoveTree(wt)) || s.count + (effects.len() - 2)
                == settings.max_cleanup_iterations
        }),
{
    let outcome = OutcomeView::Exited { success, status, stdout };
    let repo = path::joined(settings.workspace, s.rest[0].name);
    let dir = path::joined_text(repo, ".worktrees"@);
    let wt = path::joined(dir, e.name);
    let known = git::listed_worktrees(path::shown(stdout));
    let room = (settings.max_cleanup_iterations - s.count) as nat;
    let removed = worktrees_to_remove(settings, short_id, s, entries, known);
    let effects = prune_effects(repo, removed);
    cleanup::law_removals_are_limited(
        room,
        cleanup::orphans(dir, entries, known, short_id, s.cutoff),
    );
    assert(effects.len() == removed.len() + 2);
    if removed.len() < room {
        cleanup::law_orphans_go(dir, entries, known, short_id, s.cutoff, room, e);
        let i = choose|i: int| 0 <= i < removed.len() && removed[i] == wt;
        assert(effects[i] == EffectView::RemoveTree(wt));
    }
}

/// Nothing else is removed: a directory that goes was listed as one, is not the session's, was
/// last modified before the cutoff, and no path in git's listing leads to it.
pub proof fn law_nothing_but_orphans_goes(
    settings: SettingsView,
    short_id: Seq<char>,
    s: SurveyView,
    entries: Seq<ListedView>,
    stdout: Seq<u8>,
    success: bool,
    status: Seq<char>,
    removed: Seq<u8>,
)
    requires
        prune_step(
            settings,
            short_id,
            PruneView::Comparing(s, entries),
            AnswerView::Ran(OutcomeView::Exited { success, status, stdout }),
        ).1.effects.contains(EffectView::RemoveTree(removed)),
    ensures
        ({
            let repo = path::joined(settings.workspace, s.rest[0].name);
            let known = git::listed_worktrees(path::shown(stdout));
            &&& exists|e: ListedView|
                {
                    &&& #[trigger] entries.contains(e)
                    &&& removed == path::joined(path::joined_text(repo, ".worktrees"@), e.name)
                    &&& e.is_dir == Some(true)
                    &&& path::shown(e.name) != short_id
                    &&& e.modified matches Some(m) && (m.secs < s.cutoff.secs || (m.secs
                        == s.cutoff.secs && m.nanos < s.cutoff.nanos))
                }
            &&& forall|i: int|
                0 <= i < known.len() ==> text::trim_end_char(#[trigger] known[i], '/')
                    != text::trim_end_char(path::shown(removed), '/')
        }),
{
    let answer = AnswerView::Ran(OutcomeView::Exited { success, status, stdout });
    law_pruning_removes_only_orphans(
        settings,
        short_id,
        PruneView::Comparing(s, entries),
        answer,
        removed,
    );
}

/// Once git has said which branches are checked out, every branch in its list that is not
/// goes, whatever its name.
pub proof fn law_every_orphaned_branch_goes(
    settings: SettingsView,
    short_id: Seq<char>,
    s: SurveyView,
    branches: Seq<char>,
    stdout: Seq<u8>,
    success: bool,
    status: Seq<char>,
    line: Seq<char>,
)
    requires
        s.rest.len() > 0,
        text::lines_of(branches).contains(line),
        text::trimmed(line).len() > 0,
        !text::has_text(path::shown(stdout), "branch refs/heads/"@ + text::trimmed(line)),
    ensures
        prune_step(
            settings,
            short_id,
            PruneView::Checkouts(s, branches),
            AnswerView::Ran(OutcomeView::Exited { success, status, stdout }),
        ).1.effects.contains(
            EffectView::Run(
                InvocationView {
                    program: "git"@,
                    args: seq![
                        "-C"@,
                        path::shown(path::joined(settings.workspace, s.rest[0].name)),
                        "branch"@,
                        "-D"@,
                        text::trimmed(line),
                    ],
                    env: None,
                    dir: None,
                    streams: Streams::Captured,
                },
            ),
        ),
{
    let repo = path::joined(settings.workspace, s.rest[0].name);
    let listing = path::shown(stdout);
    let branch = text::trimmed(line);
    let orphaned = cleanup::orphaned_branches(branches, listing);
    let effects = branch_deletions(repo, orphaned);
    cleanup::law_orphaned_branches_go(branches, listing, line);
    lemma_survey_on(settings, SurveyView { rest: s.rest.drop_first(), ..s }, effects);
    let i = choose|i: int| 0 <= i < orphaned.len() && orphaned[i] == branch;
    assert(effects[i] == EffectView::Run(delete_command(repo, branch)));
}

/// Every effect of that is the deletion of a branch that a line of git's list names and that
/// git's listing of worktrees does not have as checked out.
pub proof fn law_nothing_but_orphaned_branches_goes(
    settings: SettingsView,
    short_id: Seq<char>,
    s: SurveyView,
    branches: Seq<char>,
    stdout: Seq<u8>,
    success: bool,
    status: Seq<char>,
    i: int,
)
    requires
        0 <= i < prune_step(
            settings,
            short_id,
            PruneView::Checkouts(s, branches),
            AnswerView::Ran(OutcomeView::Exited { success, status, stdout }),
        ).1.effects.len(),
    ensures
        exists|line: Seq<char>|
            {
                let effects = prune_step(
                    settings,
                    short_id,
                    PruneView::Checkouts(s, branches),
                    AnswerView::Ran(OutcomeView::Exited { success, status, stdout }),
                ).1.effects;
                &&& #[trigger] text::lines_of(branches).contains(line)
                &&& text::trimmed(line).len() > 0
                &&& !text::has_text(
                    path::shown(stdout),
                    "branch refs/heads/"@ + text::trimmed(line),
                )
                &&& effects[i] == EffectView::Run(
                    InvocationView {
                        program: "git"@,
                        args: seq![
                            "-C"@,
                            path::shown(path::joined(settings.workspace, s.rest[0].name)),
                            "branch"@,
                            "-D"@,
                            text::trimmed(line),
                        ],
                        env: None,
                        dir: None,
                        streams: Streams::Captured,
                    },
                )
            },
{
    let repo = path::joined(settings.workspace, s.rest[0].name);
    let listing = path::shown(stdout);
    let orphaned = cleanup::orphaned_branches(branches, listing);
    let effects = branch_deletions(repo, orphaned);
    lemma_survey_on(settings, SurveyView { rest: s.rest.drop_first(), ..s }, effects);
    assert(effects[i] == EffectView::Run(delete_command(repo, orphaned[i])));
    assert(orphaned.contains(orphaned[i]));
    cleanup::law_checked_out_branches_stay(branches, listing, orphaned[i]);
}

/// Pruning is done with an entry where it is no repository, its worktrees cannot be listed, git
/// cannot be started, or its branches are dealt with. Then it is asked of the next directory,
/// whatever its name, whether it is a repository, and where none is left, or enough was
/// removed, pruning is over. Nothing is forgotten on the way.
pub proof fn law_pruning_goes_on(
    settings: SettingsView,
    short_id: Seq<char>,
    s: SurveyView,
    state: PruneView,
    answer: AnswerView,
    i: int,
)
    requires
        s.rest.len() > 0,
        match state {
            PruneView::Testing(t) => s == t && answer !is Yes,
            PruneView::Looking(t) => s == t && !(answer matches AnswerView::Entries(Some(_), _)),
            PruneView::Branches(t) => s == t && (answer matches AnswerView::Ran(outcome)
                && outcome is NotStarted),
            PruneView::Checkouts(t, _) => s == t && answer is Ran,
            _ => false,
        },
    ensures
        ({
            let next = prune_step(settings, short_id, state, answer);
            &&& state !is Checkouts ==> next.1.effects == Seq::<EffectView>::empty()
            &&& 0 < i < s.rest.len() && s.rest[i].is_dir == Some(true) && (forall|j: int|
                0 < j < i ==> (#[trigger] s.rest[j]).is_dir != Some(true)) && s.count
                < settings.max_cleanup_iterations ==> {
                &&& next.0 == PruneView::Testing(
                    SurveyView { cutoff: s.cutoff, count: s.count, rest: s.rest.skip(i) },
                )
                &&& next.1.next == Some(
                    QuestionView::Exists(
                        path::joined_text(
                            path::joined(settings.workspace, s.rest[i].name),
                            ".git"@,
                        ),
                    ),
                )
            }
            &&& (forall|j: int|
                0 < j < s.rest.len() ==> (#[trigger] s.rest[j]).is_dir != Some(true)) || s.count
                >= settings.max_cleanup_iterations ==> next.0 == PruneView::Over(s.count)
                && next.1.next is None
        }),
{
    let effects = match (state, answer) {
        (PruneView::Checkouts(_, branches), AnswerView::Ran(outcome)) => branch_deletions(
            path::joined(settings.workspace, s.rest[0].name),
            cleanup::orphaned_branches(branches, listing_text(outcome)),
        ),
        _ => Seq::empty(),
    };
    let rest = s.rest.drop_first();
    let t = SurveyView { rest, ..s };
    lemma_survey_on(settings, t, effects);
    assert(prune_step(settings, short_id, state, answer) == survey_on(settings, t, effects));
    if 0 < i < s.rest.len() && s.rest[i].is_dir == Some(true) && (forall|j: int|
        0 < j < i ==> (#[trigger] s.rest[j]).is_dir != Some(true)) && s.count
        < settings.max_cleanup_iterations {
        assert forall|j: int| 0 <= j < i - 1 implies (#[trigger] rest[j]).is_dir != Some(true) by {
            assert(rest[j] == s.rest[j + 1]);
        }
        assert(rest[i - 1] == s.rest[i]);
        lemma_on_to_directory(settings, t, effects, i - 1);
        assert(rest.skip(i - 1) =~= s.rest.skip(i));
    }
    if (forall|j: int| 0 < j < s.rest.len() ==> (#[trigger] s.rest[j]).is_dir != Some(true))
        || s.count >= settings.max_cleanup_iterations {
        assert forall|j: int|
            0 <= j < rest.len() && s.count < settings.max_cleanup_iterations implies (
        #[trigger] rest[j]).is_dir != Some(true) by {
            assert(rest[j] == s.rest[j + 1]);
        }
        lemma_no_directory_left(settings, t, effects);
    }
}

/// A stage begins if less than five seconds have gone by when it is up, and asks for what is
/// in its directory; otherwise the next is up.
pub proof fn law_stages_begin_in_time(
    settings: SettingsView,
    short_id: Seq<char>,
    workspace: Seq<char>,
    elapsed: u64,
)
    requires
        settings.workspace == utf8::encode_utf8(workspace),
        workspace.len() > 0,
        workspace.last() != '/',
    ensures
        ({
            let up = |stage: Stage|
                recovery_step(
                    settings,
                    short_id,
                    RecoveryView::Timing(stage),
                    AnswerView::Seconds(elapsed),
                );
            &&& elapsed < 5 ==> {
                &&& up(Stage::Dirs) == (
                    RecoveryView::Listing(Stage::Dirs),
                    TurnView {
                        effects: Seq::empty(),
                        next: Some(
                            QuestionView::Entries {
                                dir: utf8::encode_utf8(
                                    workspace + seq!['/'] + ("."@ + settings.agent + "-tmp"@),
                                ),
                                follow: false,
                            },
                        ),
                    },
                )
                &&& up(Stage::Markers) == (
                    RecoveryView::Listing(Stage::Markers),
                    TurnView {
                        effects: Seq::empty(),
                        next: Some(
                            QuestionView::Entries {
                                dir: settings.pid_marker_dir,
                                follow: false,
                            },
                        ),
                    },
                )
                &&& up(Stage::Specs).0 == RecoveryView::Listing(Stage::Specs)
                &&& up(Stage::Specs).1.effects == Seq::<EffectView>::empty()
                &&& settings.spec_file_prefix.len() > 0 && settings.spec_file_prefix[0] != '/'
                    ==> up(Stage::Specs).1.next == Some(
                    QuestionView::Entries {
                        dir: utf8::encode_utf8(
                            glob::pattern_dir(
                                workspace + seq!['/'] + (settings.spec_file_prefix + seq!['*']
                                    + settings.spec_file_suffix),
                            ),
                        ),
                        follow: true,
                    },
                )
                &&& up(Stage::Worktrees) == (
                    RecoveryView::Pruning(PruneView::Listing),
                    TurnView {
                        effects: Seq::empty(),
                        next: Some(
                            QuestionView::Entries { dir: settings.workspace, follow: false },
                        ),
                    },
                )
            }
            &&& elapsed >= 5 ==> {
                let next = TurnView {
                    effects: Seq::empty(),
                    next: Some(QuestionView::Elapsed),
                };
                &&& up(Stage::Dirs) == (RecoveryView::Timing(Stage::Markers), next)
                &&& up(Stage::Markers) == (RecoveryView::Timing(Stage::Specs), next)
                &&& up(Stage::Specs) == (RecoveryView::Timing(Stage::Worktrees), next)
                &&& up(Stage::Worktrees) == (
                    RecoveryView::Over,
                    TurnView { effects: Seq::empty(), next: None },
                )
            }
        }),
{
    reveal_strlit("*");
    reveal_strlit(".");
    assert("*"@ =~= seq!['*']);
    path::law_join_text(workspace, "."@ + settings.agent + "-tmp"@);
    if settings.spec_file_prefix.len() > 0 && settings.spec_file_prefix[0] != '/' {
        archive::law_full_pattern(
            workspace,
            star_pattern(settings.spec_file_prefix, settings.spec_file_suffix),
        );
    }
}

/// A stage whose directory is listed removes from it what is older than its age in days:
/// directories with all that is in them, markers and spec files. After that the next stage is
/// up. Where the directory cannot be read, nothing is removed.
pub proof fn law_stages_remove(
    settings: SettingsView,
    short_id: Seq<char>,
    entries: Seq<ListedView>,
    now: Moment,
)
    ensures
        ({
            let limit = settings.max_cleanup_iterations;
            let before = |days: u64|
                Moment { secs: (now.secs - days * 24 * 60 * 60) as i64, nanos: now.nanos };
            let done = |stage: Stage, answer: AnswerView|
                recovery_step(settings, short_id, RecoveryView::Listing(stage), answer);
            let listed = AnswerView::Entries(Some(entries), now);
            let unread = AnswerView::Entries(None, now);
            let dirs = cleanup::stale_dirs(
                path::joined_text(settings.workspace, "."@ + settings.agent + "-tmp"@),
                entries,
                before(settings.stale_temp_dir_max_age_days),
                limit,
            );
            let markers = cleanup::stale_files(
                settings.pid_marker_dir,
                entries,
                before(settings.stale_pid_marker_max_age_days),
                limit,
            );
            let full = archive::full_pattern(
                settings.workspace,
                settings.spec_file_prefix + "*"@ + settings.spec_file_suffix,
            );
            let specs = cleanup::stale_matches(
                glob::pattern_dir(full),
                glob::pattern_name(full),
                entries,
                before(settings.stale_spec_file_max_age_days),
                limit,
            );
            let elapsed = Some(QuestionView::Elapsed);
            &&& done(Stage::Dirs, listed) == (
                RecoveryView::Timing(Stage::Markers),
                TurnView {
                    effects: Seq::new(dirs.len(), |i: int| EffectView::RemoveTree(dirs[i])),
                    next: elapsed,
                },
            )
            &&& done(Stage::Markers, listed) == (
                RecoveryView::Timing(Stage::Specs),
                TurnView {
                    effects: Seq::new(markers.len(), |i: int| EffectView::Remove(markers[i])),
                    next: elapsed,
                },
            )
            &&& done(Stage::Specs, listed) == (
                RecoveryView::Timing(Stage::Worktrees),
                TurnView {
                    effects: Seq::new(specs.len(), |i: int| EffectView::Remove(specs[i])),
                    next: elapsed,
                },
            )
            &&& done(Stage::Dirs, unread) == (
                RecoveryView::Timing(Stage::Markers),
                TurnView { effects: Seq::empty(), next: elapsed },
            )
            &&& done(Stage::Markers, unread) == (
                RecoveryView::Timing(Stage::Specs),
                TurnView { effects: Seq::empty(), next: elapsed },
            )
            &&& done(Stage::Specs, unread) == (
                RecoveryView::Timing(Stage::Worktrees),
                TurnView { effects: Seq::empty(), next: elapsed },
            )
        }),
{
    let limit = settings.max_cleanup_iterations;
    let dirs = cleanup::stale_dirs(
        temp_root(settings),
        entries,
        cleanup::earlier_by(now, settings.stale_temp_dir_max_age_days * 86400),
        limit,
    );
    let markers = cleanup::stale_files(
        settings.pid_marker_dir,
        entries,
        cleanup::earlier_by(now, settings.stale_pid_marker_max_age_days * 86400),
        limit,
    );
    let full = spec_file_pattern(settings);
    let specs = cleanup::stale_matches(
        glob::pattern_dir(full),
        glob::pattern_name(full),
        entries,
        cleanup::earlier_by(now, settings.stale_spec_file_max_age_days * 86400),
        limit,
    );
    assert(tree_removals(dirs) =~= Seq::new(dirs.len(), |i: int| EffectView::RemoveTree(dirs[i])));
    assert(file_removals(markers) =~= Seq::new(
        markers.len(),
        |i: int| EffectView::Remove(markers[i]),
    ));
    assert(file_removals(specs) =~= Seq::new(specs.len(), |i: int| EffectView::Remove(specs[i])));
}

/// An answer cannot be dealt with only where it lists a directory at a time from which the age
/// of what is to go cannot be counted back.
pub proof fn law_undated_answers(
    settings: SettingsView,
    state: RecoveryView,
    answer: AnswerView,
    entries: Seq<ListedView>,
    now: Moment,
)
    ensures
        ({
            let listed = AnswerView::Entries(Some(entries), now);
            let counts = |age: int| 0 <= age <= u64::MAX && now.secs - age >= i64::MIN;
            let dated = |state: RecoveryView| recovery_dated(settings, state, listed);
            &&& dated(RecoveryView::Listing(Stage::Dirs)) == counts(
                settings.stale_temp_dir_max_age_days * 86400,
            )
            &&& dated(RecoveryView::Listing(Stage::Markers)) == counts(
                settings.stale_pid_marker_max_age_days * 86400,
            )
            &&& dated(RecoveryView::Listing(Stage::Specs)) == counts(
                settings.stale_spec_file_max_age_days * 86400,
            )
            &&& dated(RecoveryView::Pruning(PruneView::Listing)) == counts(
                settings.orphan_worktree_max_age_hours * 3600,
            )
        }),
        !recovery_dated(settings, state, answer) ==> (answer matches AnswerView::Entries(
            Some(_),
            _,
        )) && (state is Listing || state == RecoveryView::Pruning(PruneView::Listing)),
{
}

} // verus!
