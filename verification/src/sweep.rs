//! Whole runs of the pruning of worktrees: what goes, repository by repository.

use vstd::prelude::*;

use crate::cleanup;
use crate::cleanup::ListedView;
use crate::cleanup::Moment;
use crate::path;
use crate::recovery;
use crate::recovery::PruneView;
use crate::recovery::SurveyView;
use crate::session;
use crate::session::AnswerView;
use crate::session::EffectView;
use crate::session::QuestionView;
use crate::session::SettingsView;
use crate::session::TurnView;

verus! {

// ---------------------------------------------------------------------------
// Models
// ---------------------------------------------------------------------------

/// How far pruning has come after `n` answers, with all its effects so far. What is
/// asked for as the `k`th thing, counted from 0, `world` answers.
pub open spec fn prune_run(
    world: spec_fn(nat, QuestionView) -> AnswerView,
    settings: SettingsView,
    short_id: Seq<char>,
    n: nat,
) -> (PruneView, TurnView)
    decreases n,
{
    if n == 0 {
        recovery::prune_step(settings, short_id, PruneView::Begin, AnswerView::Yes)
    } else {
        let before = prune_run(world, settings, short_id, (n - 1) as nat);
        match before.1.next {
            Some(question) => {
                let after = recovery::prune_step(
                    settings,
                    short_id,
                    before.0,
                    world((n - 1) as nat, question),
                );
                (
                    after.0,
                    TurnView {
                        effects: before.1.effects + after.1.effects,
                        next: after.1.next,
                    },
                )
            },
            None => before,
        }
    }
}

/// The path of an entry of the workspace.
pub open spec fn repo_of(settings: SettingsView, e: ListedView) -> Seq<u8> {
    path::joined(settings.workspace, e.name)
}

/// The question whether an entry of the workspace is a repository.
pub open spec fn git_question(settings: SettingsView, e: ListedView) -> QuestionView {
    QuestionView::Exists(path::joined_text(repo_of(settings, e), ".git"@))
}

/// The question what is among the worktrees of an entry of the workspace.
pub open spec fn worktrees_question(settings: SettingsView, e: ListedView) -> QuestionView {
    QuestionView::Entries { dir: cleanup::worktrees_dir(repo_of(settings, e)), follow: false }
}

/// The question which worktrees git knows of.
pub open spec fn listing_question(settings: SettingsView, e: ListedView) -> QuestionView {
    QuestionView::Run(recovery::listing_command(repo_of(settings, e)))
}

/// The question which branches of worktrees there are.
pub open spec fn branches_question(settings: SettingsView, e: ListedView) -> QuestionView {
    QuestionView::Run(recovery::branches_command(repo_of(settings, e)))
}

/// What comes of an entry of the workspace.
pub struct Visit {
    /// What is among its worktrees, and which of them git knows of, where it is a
    /// repository with worktrees.
    pub worktrees: Option<(Seq<ListedView>, Seq<Seq<char>>)>,
    /// The deletion of branches.
    pub deletions: Seq<EffectView>,
    /// The number of the question with which the next entry is up, unless that is all.
    pub next: Option<nat>,
}

/// The deletion of branches of an entry of the workspace that is up for it as the `k`th
/// thing, and when the next entry is up.
pub open spec fn deletions_at(
    world: spec_fn(nat, QuestionView) -> AnswerView,
    settings: SettingsView,
    e: ListedView,
    k: nat,
) -> (Seq<EffectView>, Option<nat>) {
    match world(k, branches_question(settings, e)) {
        AnswerView::Ran(outcome) => match recovery::git_text(outcome) {
            Some(branches) => match world(k + 1, listing_question(settings, e)) {
                AnswerView::Ran(listing) => (
                    recovery::branch_deletions(
                        repo_of(settings, e),
                        cleanup::orphaned_branches(branches, recovery::listing_text(listing)),
                    ),
                    Some(k + 2),
                ),
                _ => (Seq::empty(), None),
            },
            None => (Seq::empty(), Some(k + 1)),
        },
        _ => (Seq::empty(), None),
    }
}

/// What comes of an entry of the workspace that is up as the `k`th thing.
pub open spec fn visit(
    world: spec_fn(nat, QuestionView) -> AnswerView,
    settings: SettingsView,
    e: ListedView,
    k: nat,
) -> Visit {
    let none = Seq::<EffectView>::empty();
    if e.is_dir != Some(true) {
        Visit { worktrees: None, deletions: none, next: Some(k) }
    } else if world(k, git_question(settings, e)) !is Yes {
        Visit { worktrees: None, deletions: none, next: Some(k + 1) }
    } else {
        match world(k + 1, worktrees_question(settings, e)) {
            AnswerView::Entries(Some(worktrees), _) => match world(
                k + 2,
                listing_question(settings, e),
            ) {
                AnswerView::Ran(outcome) => {
                    let (deletions, next) = deletions_at(world, settings, e, k + 3);
                    Visit {
                        worktrees: Some((worktrees, recovery::active_worktrees(outcome))),
                        deletions,
                        next,
                    }
                },
                _ => Visit { worktrees: None, deletions: none, next: None },
            },
            _ => Visit { worktrees: None, deletions: none, next: Some(k + 2) },
        }
    }
}

/// The orphans among the worktrees of an entry of the workspace.
pub open spec fn visit_orphans(
    visit: Visit,
    settings: SettingsView,
    short_id: Seq<char>,
    cutoff: Moment,
    e: ListedView,
) -> Seq<Seq<u8>> {
    match visit.worktrees {
        Some((worktrees, active)) => cleanup::orphans(
            cleanup::worktrees_dir(repo_of(settings, e)),
            worktrees,
            active,
            short_id,
            cutoff,
        ),
        None => Seq::empty(),
    }
}

/// All orphans of the entries `rest`, the first of which is up as the `k`th thing.
pub open spec fn orphans_from(
    world: spec_fn(nat, QuestionView) -> AnswerView,
    settings: SettingsView,
    short_id: Seq<char>,
    cutoff: Moment,
    rest: Seq<ListedView>,
    k: nat,
) -> Seq<Seq<u8>>
    decreases rest.len(),
{
    if rest.len() == 0 {
        Seq::empty()
    } else {
        let v = visit(world, settings, rest[0], k);
        visit_orphans(v, settings, short_id, cutoff, rest[0]) + match v.next {
            Some(next) => orphans_from(
                world,
                settings,
                short_id,
                cutoff,
                rest.drop_first(),
                next,
            ),
            None => Seq::empty(),
        }
    }
}

/// Everything that pruning does to the entries `rest`, the first of which is up as the
/// `k`th thing, where `room` more worktrees may go: their orphans are removed as far as
/// there is room, git is to forget them, empty directories go, and so do branches that no
/// worktree has checked out. Without room it stops.
pub open spec fn swept(
    world: spec_fn(nat, QuestionView) -> AnswerView,
    settings: SettingsView,
    short_id: Seq<char>,
    cutoff: Moment,
    rest: Seq<ListedView>,
    room: nat,
    k: nat,
) -> Seq<EffectView>
    decreases rest.len(),
{
    if room == 0 || rest.len() == 0 {
        Seq::empty()
    } else {
        let v = visit(world, settings, rest[0], k);
        let removed = cleanup::at_most(
            room,
            visit_orphans(v, settings, short_id, cutoff, rest[0]),
        );
        (if v.worktrees is Some {
            recovery::prune_effects(repo_of(settings, rest[0]), removed)
        } else {
            Seq::empty()
        }) + v.deletions + match v.next {
            Some(next) => swept(
                world,
                settings,
                short_id,
                cutoff,
                rest.drop_first(),
                (room - removed.len()) as nat,
                next,
            ),
            None => Seq::empty(),
        }
    }
}

/// The question for the entries of the workspace.
pub open spec fn workspace_question(settings: SettingsView) -> QuestionView {
    QuestionView::Entries { dir: settings.workspace, follow: false }
}

/// The moment before which a worktree is old enough to go.
pub open spec fn orphan_cutoff(settings: SettingsView, now: Moment) -> Moment {
    cleanup::earlier_by(now, settings.orphan_worktree_max_age_hours * 3600)
}

/// All orphaned worktrees of the workspace.
pub open spec fn all_orphans(
    world: spec_fn(nat, QuestionView) -> AnswerView,
    settings: SettingsView,
    short_id: Seq<char>,
) -> Seq<Seq<u8>> {
    match world(0, workspace_question(settings)) {
        AnswerView::Entries(Some(entries), now) => orphans_from(
            world,
            settings,
            short_id,
            orphan_cutoff(settings, now),
            entries,
            1,
        ),
        _ => Seq::empty(),
    }
}

/// Everything that pruning does.
pub open spec fn prune_all(
    world: spec_fn(nat, QuestionView) -> AnswerView,
    settings: SettingsView,
    short_id: Seq<char>,
) -> Seq<EffectView> {
    match world(0, workspace_question(settings)) {
        AnswerView::Entries(Some(entries), now) => swept(
            world,
            settings,
            short_id,
            orphan_cutoff(settings, now),
            entries,
            settings.max_cleanup_iterations,
            1,
        ),
        _ => Seq::empty(),
    }
}

/// The directories that effects remove, in order.
pub open spec fn trees_of(effects: Seq<EffectView>) -> Seq<Seq<u8>>
    decreases effects.len(),
{
    if effects.len() == 0 {
        Seq::empty()
    } else {
        let before = trees_of(effects.drop_last());
        match effects.last() {
            EffectView::RemoveTree(p) => before.push(p),
            _ => before,
        }
    }
}

// ---------------------------------------------------------------------------
// A run is a sweep
// ---------------------------------------------------------------------------

/// The walk at the entries `s.rest`, where `acc` was done so far and `k` answers were
/// given, goes on as the sweep of those entries says, and comes to its end.
#[verifier::rlimit(60)]
proof fn lemma_walk(
    world: spec_fn(nat, QuestionView) -> AnswerView,
    settings: SettingsView,
    short_id: Seq<char>,
    s: SurveyView,
    effects: Seq<EffectView>,
    k: nat,
    acc: Seq<EffectView>,
) -> (n: nat)
    requires
        s.count <= settings.max_cleanup_iterations,
        prune_run(world, settings, short_id, k) == (
            recovery::survey_on(settings, s, effects).0,
            TurnView { effects: acc, next: recovery::survey_on(settings, s, effects).1.next },
        ),
    ensures
        prune_run(world, settings, short_id, n).0 is Over,
        prune_run(world, settings, short_id, n).1 == session::closing(
            acc + swept(
                world,
                settings,
                short_id,
                s.cutoff,
                s.rest,
                (settings.max_cleanup_iterations - s.count) as nat,
                k,
            ),
        ),
    decreases s.rest.len(), 1nat,
{
    let limit = settings.max_cleanup_iterations;
    let none = Seq::<EffectView>::empty();
    let sweep = swept(
        world,
        settings,
        short_id,
        s.cutoff,
        s.rest,
        (limit - s.count) as nat,
        k,
    );
    if s.count >= limit || s.rest.len() == 0 {
        assert(acc + sweep =~= acc);
        k
    } else {
        let e = s.rest[0];
        let v = visit(world, settings, e, k);
        let later = SurveyView { rest: s.rest.drop_first(), ..s };
        if e.is_dir != Some(true) {
            let n = lemma_walk(world, settings, short_id, later, effects, k, acc);
            assert(none + none + swept(
                world,
                settings,
                short_id,
                s.cutoff,
                later.rest,
                (limit - s.count) as nat,
                k,
            ) =~= swept(
                world,
                settings,
                short_id,
                s.cutoff,
                later.rest,
                (limit - s.count) as nat,
                k,
            ));
            n
        } else {
            assert(recovery::current_repo(settings, s) == repo_of(settings, e));
            assert(acc + none =~= acc);
            let run1 = prune_run(world, settings, short_id, k + 1);
            if world(k, git_question(settings, e)) !is Yes {
                recovery::lemma_survey_on(settings, later, none);
                let n = lemma_walk(world, settings, short_id, later, none, k + 1, acc);
                assert(acc + sweep =~= acc + swept(
                    world,
                    settings,
                    short_id,
                    s.cutoff,
                    later.rest,
                    (limit - s.count) as nat,
                    k + 1,
                ));
                n
            } else {
                assert(run1 == (
                    PruneView::Looking(s),
                    session::doing(acc, worktrees_question(settings, e)),
                ));
                let run2 = prune_run(world, settings, short_id, k + 2);
                match world(k + 1, worktrees_question(settings, e)) {
                    AnswerView::Entries(Some(worktrees), _) => {
                        assert(run2 == (
                            PruneView::Comparing(s, worktrees),
                            session::doing(acc, listing_question(settings, e)),
                        ));
                        lemma_walk_on(world, settings, short_id, s, worktrees, k, acc)
                    },
                    _ => {
                        recovery::lemma_survey_on(settings, later, none);
                        let n = lemma_walk(world, settings, short_id, later, none, k + 2, acc);
                        assert(acc + sweep =~= acc + swept(
                            world,
                            settings,
                            short_id,
                            s.cutoff,
                            later.rest,
                            (limit - s.count) as nat,
                            k + 2,
                        ));
                        n
                    },
                }
            }
        }
    }
}

/// The walk at a repository whose worktrees were listed goes on as the sweep says.
#[verifier::rlimit(60)]
proof fn lemma_walk_on(
    world: spec_fn(nat, QuestionView) -> AnswerView,
    settings: SettingsView,
    short_id: Seq<char>,
    s: SurveyView,
    worktrees: Seq<ListedView>,
    k: nat,
    acc: Seq<EffectView>,
) -> (n: nat)
    requires
        s.count < settings.max_cleanup_iterations,
        s.rest.len() > 0,
        s.rest[0].is_dir == Some(true),
        world(k, git_question(settings, s.rest[0])) is Yes,
        world(k + 1, worktrees_question(settings, s.rest[0])) matches AnswerView::Entries(
            Some(listed),
            _,
        ) && listed == worktrees,
        prune_run(world, settings, short_id, k + 2) == (
            PruneView::Comparing(s, worktrees),
            session::doing(acc, listing_question(settings, s.rest[0])),
        ),
    ensures
        prune_run(world, settings, short_id, n).0 is Over,
        prune_run(world, settings, short_id, n).1 == session::closing(
            acc + swept(
                world,
                settings,
                short_id,
                s.cutoff,
                s.rest,
                (settings.max_cleanup_iterations - s.count) as nat,
                k,
            ),
        ),
    decreases s.rest.len(), 0nat,
{
    let limit = settings.max_cleanup_iterations;
    let none = Seq::<EffectView>::empty();
    let e = s.rest[0];
    let repo = repo_of(settings, e);
    let room = (limit - s.count) as nat;
    let v = visit(world, settings, e, k);
    let sweep = swept(world, settings, short_id, s.cutoff, s.rest, room, k);
    assert(recovery::current_repo(settings, s) == repo);
    match world(k + 2, listing_question(settings, e)) {
        AnswerView::Ran(outcome) => {
            let active = recovery::active_worktrees(outcome);
            let removed = recovery::worktrees_to_remove(settings, short_id, s, worktrees, active);
            let first = recovery::prune_effects(repo, removed);
            let t = SurveyView { count: s.count + removed.len(), ..s };
            let later = SurveyView { rest: s.rest.drop_first(), ..t };
            let left = (limit - t.count) as nat;
            assert(removed == cleanup::at_most(
                room,
                visit_orphans(v, settings, short_id, s.cutoff, e),
            ));
            assert(recovery::current_repo(settings, t) == repo);
            assert(prune_run(world, settings, short_id, k + 3) == (
                PruneView::Branches(t),
                session::doing(acc + first, branches_question(settings, e)),
            ));
            match world(k + 3, branches_question(settings, e)) {
                AnswerView::Ran(listed) => match recovery::git_text(listed) {
                    Some(branches) => {
                        assert(prune_run(world, settings, short_id, k + 4) == (
                            PruneView::Checkouts(t, branches),
                            session::doing(acc + first, listing_question(settings, e)),
                        )) by {
                            assert(acc + first + none =~= acc + first);
                        }
                        match world(k + 4, listing_question(settings, e)) {
                            AnswerView::Ran(checkouts) => {
                                let deletions = recovery::branch_deletions(
                                    repo,
                                    cleanup::orphaned_branches(
                                        branches,
                                        recovery::listing_text(checkouts),
                                    ),
                                );
                                recovery::lemma_survey_on(settings, later, deletions);
                                let n = lemma_walk(
                                    world,
                                    settings,
                                    short_id,
                                    later,
                                    deletions,
                                    k + 5,
                                    acc + first + deletions,
                                );
                                assert(acc + sweep =~= acc + first + deletions + swept(
                                    world,
                                    settings,
                                    short_id,
                                    s.cutoff,
                                    later.rest,
                                    left,
                                    k + 5,
                                ));
                                n
                            },
                            _ => {
                                assert(acc + sweep =~= acc + first);
                                assert(acc + first + none =~= acc + first);
                                k + 5
                            },
                        }
                    },
                    None => {
                        recovery::lemma_survey_on(settings, later, none);
                        assert(acc + first + none =~= acc + first);
                        let n = lemma_walk(
                            world,
                            settings,
                            short_id,
                            later,
                            none,
                            k + 4,
                            acc + first,
                        );
                        assert(acc + sweep =~= acc + first + swept(
                            world,
                            settings,
                            short_id,
                            s.cutoff,
                            later.rest,
                            left,
                            k + 4,
                        ));
                        n
                    },
                },
                _ => {
                    assert(acc + sweep =~= acc + first);
                    assert(acc + first + none =~= acc + first);
                    k + 4
                },
            }
        },
        _ => {
            assert(acc + sweep =~= acc);
            assert(acc + none =~= acc);
            k + 3
        },
    }
}

// ---------------------------------------------------------------------------
// Laws
// ---------------------------------------------------------------------------

/// Whatever the system answers, pruning comes to an end, and has then done everything
/// that it should and nothing else.
pub proof fn law_pruning(
    world: spec_fn(nat, QuestionView) -> AnswerView,
    settings: SettingsView,
    short_id: Seq<char>,
)
    ensures
        exists|n: nat|
            {
                &&& (#[trigger] prune_run(world, settings, short_id, n)).0 is Over
                &&& prune_run(world, settings, short_id, n).1 == session::closing(
                    prune_all(world, settings, short_id),
                )
            },
{
    let none = Seq::<EffectView>::empty();
    reveal_with_fuel(prune_run, 2);
    assert(none + none =~= none);
    let run = prune_run(world, settings, short_id, 1);
    match world(0, workspace_question(settings)) {
        AnswerView::Entries(Some(entries), now) => {
            let s = SurveyView {
                cutoff: orphan_cutoff(settings, now),
                count: 0,
                rest: entries,
            };
            recovery::lemma_survey_on(settings, s, none);
            let n = lemma_walk(world, settings, short_id, s, none, 1, none);
            assert(none + prune_all(world, settings, short_id) =~= prune_all(
                world,
                settings,
                short_id,
            ));
            assert(prune_run(world, settings, short_id, n).0 is Over);
        },
        _ => {
            assert(run.0 is Over);
        },
    }
}

/// The directories that effects remove, one after the other.
proof fn lemma_trees_concat(a: Seq<EffectView>, b: Seq<EffectView>)
    ensures
        trees_of(a + b) == trees_of(a) + trees_of(b),
    decreases b.len(),
{
    if b.len() == 0 {
        assert(a + b =~= a);
        assert(trees_of(a) + trees_of(b) =~= trees_of(a));
    } else {
        assert((a + b).drop_last() =~= a + b.drop_last());
        lemma_trees_concat(a, b.drop_last());
        assert(trees_of(a + b) =~= trees_of(a) + trees_of(b));
    }
}

/// Effects that remove no directory.
proof fn lemma_no_trees(effects: Seq<EffectView>)
    requires
        forall|i: int| 0 <= i < effects.len() ==> !(#[trigger] effects[i] is RemoveTree),
    ensures
        trees_of(effects) == Seq::<Seq<u8>>::empty(),
    decreases effects.len(),
{
    if effects.len() > 0 {
        lemma_no_trees(effects.drop_last());
    }
}

/// Effects that remove directories.
proof fn lemma_trees_removed(paths: Seq<Seq<u8>>)
    ensures
        trees_of(recovery::tree_removals(paths)) == paths,
    decreases paths.len(),
{
    let effects = recovery::tree_removals(paths);
    if paths.len() == 0 {
        assert(trees_of(effects) =~= paths);
    } else {
        lemma_trees_removed(paths.drop_last());
        assert(effects.drop_last() =~= recovery::tree_removals(paths.drop_last()));
        assert(trees_of(effects) =~= paths);
    }
}

/// What goes of two sequences, one after the other, is what goes of the first and, as far
/// as there is room left, of the second.
proof fn lemma_at_most_concat<A>(room: nat, a: Seq<A>, b: Seq<A>)
    ensures
        cleanup::at_most(room, a + b) == cleanup::at_most(room, a) + cleanup::at_most(
            (room - cleanup::at_most(room, a).len()) as nat,
            b,
        ),
{
    assert(cleanup::at_most(room, a + b) =~= cleanup::at_most(room, a) + cleanup::at_most(
        (room - cleanup::at_most(room, a).len()) as nat,
        b,
    ));
}

/// A sweep removes orphans in order, as far as there is room.
proof fn lemma_swept_trees(
    world: spec_fn(nat, QuestionView) -> AnswerView,
    settings: SettingsView,
    short_id: Seq<char>,
    cutoff: Moment,
    rest: Seq<ListedView>,
    room: nat,
    k: nat,
)
    ensures
        trees_of(swept(world, settings, short_id, cutoff, rest, room, k)) == cleanup::at_most(
            room,
            orphans_from(world, settings, short_id, cutoff, rest, k),
        ),
    decreases rest.len(),
{
    let sweep = swept(world, settings, short_id, cutoff, rest, room, k);
    let found = orphans_from(world, settings, short_id, cutoff, rest, k);
    if room == 0 || rest.len() == 0 {
        assert(trees_of(sweep) =~= cleanup::at_most(room, found));
    } else {
        let e = rest[0];
        let repo = repo_of(settings, e);
        let v = visit(world, settings, e, k);
        let orphans = visit_orphans(v, settings, short_id, cutoff, e);
        let removed = cleanup::at_most(room, orphans);
        let left = (room - removed.len()) as nat;
        let first = if v.worktrees is Some {
            recovery::prune_effects(repo, removed)
        } else {
            Seq::empty()
        };
        let last = match v.next {
            Some(next) => swept(
                world,
                settings,
                short_id,
                cutoff,
                rest.drop_first(),
                left,
                next,
            ),
            None => Seq::empty(),
        };
        let later = match v.next {
            Some(next) => orphans_from(
                world,
                settings,
                short_id,
                cutoff,
                rest.drop_first(),
                next,
            ),
            None => Seq::empty(),
        };
        assert(trees_of(first) == removed) by {
            if v.worktrees is Some {
                let trees = recovery::tree_removals(removed);
                lemma_trees_removed(removed);
                assert(first.drop_last().drop_last() =~= trees);
                assert(first.last() is CleanEmptyDirs);
                assert(first.drop_last().last() is PruneStale);
                reveal_with_fuel(trees_of, 3);
            } else {
                assert(removed =~= Seq::<Seq<u8>>::empty());
            }
        }
        lemma_no_trees(v.deletions);
        lemma_trees_concat(first, v.deletions);
        lemma_trees_concat(first + v.deletions, last);
        assert(trees_of(last) == cleanup::at_most(left, later)) by {
            match v.next {
                Some(next) => lemma_swept_trees(
                    world,
                    settings,
                    short_id,
                    cutoff,
                    rest.drop_first(),
                    left,
                    next,
                ),
                None => {
                    assert(cleanup::at_most(left, later) =~= Seq::<Seq<u8>>::empty());
                },
            }
        }
        lemma_at_most_concat(room, orphans, later);
        assert(removed + Seq::<Seq<u8>>::empty() =~= removed);
    }
}

/// Pruning removes the orphaned worktrees of the workspace in order, at most as many as
/// the limit says: all of them where there are no more than that.
pub proof fn law_pruning_removes_orphans(
    world: spec_fn(nat, QuestionView) -> AnswerView,
    settings: SettingsView,
    short_id: Seq<char>,
)
    ensures
        ({
            let limit = settings.max_cleanup_iterations;
            let removed = trees_of(prune_all(world, settings, short_id));
            let orphans = all_orphans(world, settings, short_id);
            &&& removed == cleanup::at_most(limit, orphans)
            &&& removed.len() <= limit
            &&& orphans.len() <= limit ==> removed == orphans
        }),
{
    match world(0, workspace_question(settings)) {
        AnswerView::Entries(Some(entries), now) => {
            lemma_swept_trees(
                world,
                settings,
                short_id,
                orphan_cutoff(settings, now),
                entries,
                settings.max_cleanup_iterations,
                1,
            );
        },
        _ => {
            assert(trees_of(Seq::<EffectView>::empty()) =~= cleanup::at_most(
                settings.max_cleanup_iterations,
                Seq::<Seq<u8>>::empty(),
            ));
        },
    }
}

/// An entry `e` of the workspace was found to be a repository as the `k`th thing, and
/// `tree` is an orphan among its worktrees: a directory that was listed there, is not the
/// session's, was last modified before `cutoff`, and is none that git knows of.
pub open spec fn is_orphan_of(
    world: spec_fn(nat, QuestionView) -> AnswerView,
    settings: SettingsView,
    short_id: Seq<char>,
    cutoff: Moment,
    e: ListedView,
    k: nat,
    tree: Seq<u8>,
) -> bool {
    let dir = cleanup::worktrees_dir(repo_of(settings, e));
    &&& e.is_dir == Some(true)
    &&& world(k, git_question(settings, e)) is Yes
    &&& world(k + 1, worktrees_question(settings, e)) matches AnswerView::Entries(
        Some(worktrees),
        _,
    )
    &&& world(k + 2, listing_question(settings, e)) matches AnswerView::Ran(outcome)
    &&& exists|w: ListedView|
        {
            let active = recovery::active_worktrees(outcome);
            &&& #[trigger] worktrees.contains(w)
            &&& tree == path::joined(dir, w.name)
            &&& w.is_dir == Some(true)
            &&& path::shown(w.name) != short_id
            &&& w.modified matches Some(m) && cleanup::before(m, cutoff)
            &&& !cleanup::is_active(tree, active)
        }
}

/// What a sweep finds are orphans of the entries that it goes through.
proof fn lemma_orphans_from(
    world: spec_fn(nat, QuestionView) -> AnswerView,
    settings: SettingsView,
    short_id: Seq<char>,
    cutoff: Moment,
    rest: Seq<ListedView>,
    k: nat,
    tree: Seq<u8>,
)
    requires
        orphans_from(world, settings, short_id, cutoff, rest, k).contains(tree),
    ensures
        exists|e: ListedView, j: nat|
            rest.contains(e) && #[trigger] is_orphan_of(
                world,
                settings,
                short_id,
                cutoff,
                e,
                j,
                tree,
            ),
    decreases rest.len(),
{
    let e = rest[0];
    let v = visit(world, settings, e, k);
    let first = visit_orphans(v, settings, short_id, cutoff, e);
    let found = orphans_from(world, settings, short_id, cutoff, rest, k);
    let i = choose|i: int| 0 <= i < found.len() && found[i] == tree;
    assert(rest.contains(e));
    if i < first.len() {
        assert(first[i] == tree);
        let (worktrees, active) = v.worktrees.unwrap();
        let dir = cleanup::worktrees_dir(repo_of(settings, e));
        assert(cleanup::at_most(first.len(), first) == first);
        assert(cleanup::at_most(first.len(), first).contains(tree));
        cleanup::law_only_orphans_are_removed(
            dir,
            worktrees,
            active,
            short_id,
            cutoff,
            first.len(),
            tree,
        );
        assert(is_orphan_of(world, settings, short_id, cutoff, e, k, tree));
    } else {
        let next = v.next.unwrap();
        let later = orphans_from(world, settings, short_id, cutoff, rest.drop_first(), next);
        assert(later[i - first.len()] == tree);
        lemma_orphans_from(world, settings, short_id, cutoff, rest.drop_first(), next, tree);
        let (f, j) = choose|f: ListedView, j: nat|
            rest.drop_first().contains(f) && #[trigger] is_orphan_of(
                world,
                settings,
                short_id,
                cutoff,
                f,
                j,
                tree,
            );
        let x = choose|x: int| 0 <= x < rest.drop_first().len() && rest.drop_first()[x] == f;
        assert(rest[x + 1] == f);
        assert(rest.contains(f));
    }
}

/// Over a whole run, every directory that pruning removes is a directory among the
/// worktrees of a repository in the workspace: the repository was listed there and its
/// `.git` was found, the directory was listed, is not the session's, was last modified
/// more than the maximal age before the time of the first listing, and is none that git
/// knows of.
pub proof fn law_pruned_trees_are_orphans(
    world: spec_fn(nat, QuestionView) -> AnswerView,
    settings: SettingsView,
    short_id: Seq<char>,
    n: nat,
    tree: Seq<u8>,
)
    requires
        prune_run(world, settings, short_id, n).1.effects.contains(
            EffectView::RemoveTree(tree),
        ),
    ensures
        world(0, workspace_question(settings)) matches AnswerView::Entries(Some(entries), now)
            && exists|e: ListedView, k: nat|
            entries.contains(e) && #[trigger] is_orphan_of(
                world,
                settings,
                short_id,
                cleanup::earlier_by(now, settings.orphan_worktree_max_age_hours * 3600),
                e,
                k,
                tree,
            ),
{
    law_pruning(world, settings, short_id);
    let last = choose|last: nat|
        {
            &&& (#[trigger] prune_run(world, settings, short_id, last)).0 is Over
            &&& prune_run(world, settings, short_id, last).1 == session::closing(
                prune_all(world, settings, short_id),
            )
        };
    let effects = prune_run(world, settings, short_id, n).1.effects;
    let all = prune_all(world, settings, short_id);
    lemma_run_grows(world, settings, short_id, n, last);
    let i = choose|i: int| 0 <= i < effects.len() && effects[i] == EffectView::RemoveTree(tree);
    assert(all[i] == effects[i]);
    lemma_tree_is_removed(all, i, tree);
    law_pruning_removes_orphans(world, settings, short_id);
    let orphans = all_orphans(world, settings, short_id);
    let j = choose|j: int| 0 <= j < trees_of(all).len() && trees_of(all)[j] == tree;
    assert(orphans[j] == tree);
    assert(orphans.contains(tree));
    if let AnswerView::Entries(Some(entries), now) = world(0, workspace_question(settings)) {
        lemma_orphans_from(
            world,
            settings,
            short_id,
            orphan_cutoff(settings, now),
            entries,
            1,
            tree,
        );
    }
}

/// What was done stays done, and nothing is done once a run is over.
proof fn lemma_run_grows(
    world: spec_fn(nat, QuestionView) -> AnswerView,
    settings: SettingsView,
    short_id: Seq<char>,
    n: nat,
    last: nat,
)
    requires
        prune_run(world, settings, short_id, last).1.next is None,
    ensures
        prune_run(world, settings, short_id, n).1.effects.is_prefix_of(
            prune_run(world, settings, short_id, last).1.effects,
        ),
    decreases
            (if n < last {
                last - n
            } else {
                n - last
            }),
{
    let effects = prune_run(world, settings, short_id, n).1.effects;
    if n < last {
        lemma_run_grows(world, settings, short_id, n + 1, last);
        assert(effects.is_prefix_of(prune_run(world, settings, short_id, n + 1).1.effects));
    } else if n > last {
        lemma_run_is_over(world, settings, short_id, last, n);
    }
}

/// A run that is over stays as it is.
proof fn lemma_run_is_over(
    world: spec_fn(nat, QuestionView) -> AnswerView,
    settings: SettingsView,
    short_id: Seq<char>,
    last: nat,
    n: nat,
)
    requires
        last <= n,
        prune_run(world, settings, short_id, last).1.next is None,
    ensures
        prune_run(world, settings, short_id, n) == prune_run(world, settings, short_id, last),
    decreases n,
{
    if last < n {
        lemma_run_is_over(world, settings, short_id, last, (n - 1) as nat);
    }
}

/// A directory that an effect removes is among those that are removed.
proof fn lemma_tree_is_removed(effects: Seq<EffectView>, i: int, tree: Seq<u8>)
    requires
        0 <= i < effects.len(),
        effects[i] == EffectView::RemoveTree(tree),
    ensures
        trees_of(effects).contains(tree),
    decreases effects.len(),
{
    let before = trees_of(effects.drop_last());
    if i == effects.len() - 1 {
        assert(trees_of(effects).last() == tree);
    } else {
        lemma_tree_is_removed(effects.drop_last(), i, tree);
        let j = choose|j: int| 0 <= j < before.len() && before[j] == tree;
        assert(trees_of(effects)[j] == tree);
    }
}

} // verus!
