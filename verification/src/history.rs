//! Whole runs of the hook: what it does from beginning to end, whatever the system
//! answers.

use vstd::prelude::*;
use vstd::utf8;

use crate::archive;
use crate::calendar;
use crate::glob;
use crate::output;
use crate::path;
use crate::recovery;
use crate::recovery::Prune;
use crate::recovery::PruneView;
use crate::recovery::Recovery;
use crate::recovery::RecoveryView;
use crate::recovery::Stage;
use crate::recovery::SurveyView;
use crate::session;
use crate::session::AnswerView;
use crate::session::EffectView;
use crate::session::HookInputView;
use crate::session::QuestionView;
use crate::session::SessionView;
use crate::session::SettingsView;
use crate::session::SpecEntryView;
use crate::session::TurnView;
use crate::start;
use crate::start::ClearView;
use crate::start::HandlerView;
use crate::start::JobView;
use crate::start::Resume;
use crate::start::Run;
use crate::start::RunView;
use crate::start::StartupView;
use crate::sweep;
use crate::text;

verus! {

// ---------------------------------------------------------------------------
// Dealing with a session
// ---------------------------------------------------------------------------

/// How far the dealing with a session has come after `n` answers, with all its effects
/// so far. What is asked for as the `k`th thing, counted from 0, `world` answers.
pub open spec fn handler_run(
    world: spec_fn(nat, QuestionView) -> AnswerView,
    settings: SettingsView,
    job: JobView,
    n: nat,
) -> (HandlerView, TurnView)
    decreases n,
{
    if n == 0 {
        start::handler_step(settings, job, start::handler_for(job.source), AnswerView::Yes)
    } else {
        let before = handler_run(world, settings, job, (n - 1) as nat);
        match before.1.next {
            Some(question) => {
                let after = start::handler_step(
                    settings,
                    job,
                    before.0,
                    world((n - 1) as nat, question),
                );
                (
                    after.0,
                    TurnView {
                        effects: before.1.effects + after.1.effects,
                        next: after.1.next,
                    },
                )
            },
            None => before,
        }
    }
}

/// What a startup makes of the worktrees that were created: they are recorded and
/// announced. Where they could not be created, the session is blocked. That they be
/// created is the `k`th thing that is asked for.
pub open spec fn after_creation(
    world: spec_fn(nat, QuestionView) -> AnswerView,
    session: SessionView,
    k: nat,
) -> Seq<EffectView> {
    match world(k, QuestionView::CreateWorktrees) {
        AnswerView::Failed(error) => start::blocked(session, error),
        AnswerView::Created(entries) => if entries.len() > 0 {
            start::complaint_if(
                world(k + 1, QuestionView::SaveSpec(entries)),
                "failed to save spec file: "@,
            ) + start::announcement(entries)
        } else {
            Seq::empty()
        },
        _ => Seq::empty(),
    }
}

/// What a startup compresses: leftover changelogs, then leftover traces, those of running
/// sessions and its own aside. Nothing, where it is not known which sessions are running.
pub open spec fn startup_gzips(
    world: spec_fn(nat, QuestionView) -> AnswerView,
    settings: SettingsView,
    session: SessionView,
) -> Seq<EffectView> {
    let changelogs = start::log_pattern(
        settings,
        settings.changelog_prefix,
        settings.changelog_suffix,
    );
    let traces = start::log_pattern(settings, settings.trace_prefix, settings.trace_suffix);
    match world(0, QuestionView::Running) {
        AnswerView::Running(ids) => {
            let spared = ids.push(session.id);
            start::gzips(changelogs, spared, world(1, start::names_for(changelogs)))
                + start::gzips(traces, spared, world(2, start::names_for(traces)))
        },
        _ => Seq::empty(),
    }
}

/// The number of the question with which a startup begins its changelog.
pub open spec fn header_turn(world: spec_fn(nat, QuestionView) -> AnswerView) -> nat {
    if world(0, QuestionView::Running) is Running {
        3
    } else {
        1
    }
}

/// Everything that a startup does: leftover changelogs and traces of sessions that are
/// gone are compressed, the changelog begins, the link leads to it, and worktrees are
/// created.
pub open spec fn startup_effects(
    world: spec_fn(nat, QuestionView) -> AnswerView,
    settings: SettingsView,
    session: SessionView,
    timestamp: Seq<char>,
) -> Seq<EffectView> {
    let k = header_turn(world);
    startup_gzips(world, settings, session) + start::complaint_if(
        world(k, start::header_question(session, timestamp)),
        "failed to create changelog: "@,
    ) + start::relink(settings, session.id) + after_creation(world, session, k + 1)
}

/// Whether a startup leaves the session with worktrees.
pub open spec fn startup_active(world: spec_fn(nat, QuestionView) -> AnswerView) -> bool {
    world(header_turn(world) + 1, QuestionView::CreateWorktrees) matches AnswerView::Created(
        entries,
    ) && entries.len() > 0
}

/// The question to restore the changelog of a session.
pub open spec fn log_question(session: SessionView) -> QuestionView {
    QuestionView::RestoreLog {
        gz_path: session.changelog_gz_path,
        log_path: session.changelog_path,
    }
}

/// What a resume makes of the worktrees that the spec file records: they are
/// restored, those that were are recorded again and announced, and what went wrong
/// with the others goes into the changelog.
pub open spec fn after_reading(
    world: spec_fn(nat, QuestionView) -> AnswerView,
    session: SessionView,
) -> Seq<EffectView> {
    match world(1, QuestionView::ReadSpec) {
        AnswerView::Spec(Some(entries)) => match world(
            2,
            QuestionView::RestoreWorktrees(entries),
        ) {
            AnswerView::Restored(restored, errors) => if entries.len() > 0 {
                start::restore_warnings(session.changelog_path, errors)
                    + start::worktrees_restored(restored)
            } else {
                Seq::empty()
            },
            _ => Seq::empty(),
        },
        _ => Seq::empty(),
    }
}

/// Whether a resume leaves the session with worktrees.
pub open spec fn resume_active(world: spec_fn(nat, QuestionView) -> AnswerView) -> bool {
    &&& world(1, QuestionView::ReadSpec) matches AnswerView::Spec(Some(entries))
    &&& entries.len() > 0
    &&& world(2, QuestionView::RestoreWorktrees(entries)) matches AnswerView::Restored(restored, _)
    &&& restored.len() > 0
}

/// Everything that a resume does: the changelog and the trace are restored, the
/// changelog gets a mark, the link leads to it, and worktrees are restored.
pub open spec fn resume_effects(
    world: spec_fn(nat, QuestionView) -> AnswerView,
    settings: SettingsView,
    session: SessionView,
    timestamp: Seq<char>,
) -> Seq<EffectView> {
    start::log_restored(settings, session, timestamp, world(0, log_question(session)) is Yes)
        + after_reading(world, session)
}

/// The worktrees that the spec file records and that still exist, where the spec file
/// is the `k`th thing that is asked for.
pub open spec fn existing_worktrees(
    world: spec_fn(nat, QuestionView) -> AnswerView,
    k: nat,
) -> Seq<SpecEntryView> {
    match world(k, QuestionView::ReadSpec) {
        AnswerView::Spec(Some(entries)) => match world(
            k + 1,
            QuestionView::WhichExist(start::worktree_paths(entries)),
        ) {
            AnswerView::Which(flags) => start::flagged(entries, flags),
            _ => Seq::empty(),
        },
        _ => Seq::empty(),
    }
}

/// Everything that is done after a clear or a compaction: a changelog that is gone is
/// restored or written again, the link leads to it, and the worktrees that exist are
/// announced.
pub open spec fn clear_effects(
    world: spec_fn(nat, QuestionView) -> AnswerView,
    settings: SettingsView,
    session: SessionView,
    source: Seq<char>,
    timestamp: Seq<char>,
) -> Seq<EffectView> {
    if world(0, QuestionView::Exists(session.changelog_path)) is Yes {
        start::relink(settings, session.id) + start::announcement(existing_worktrees(world, 1))
    } else {
        start::log_again(
            session,
            source,
            timestamp,
            world(1, log_question(session)) is Yes,
        ) + start::relink(settings, session.id) + start::announcement(
            existing_worktrees(world, 2),
        )
    }
}

/// Everything that is done for a session, by why the hook was run.
pub open spec fn handler_effects(
    world: spec_fn(nat, QuestionView) -> AnswerView,
    settings: SettingsView,
    job: JobView,
) -> Seq<EffectView> {
    match start::handler_for(job.source) {
        HandlerView::Startup(_) => startup_effects(world, settings, job.session, job.timestamp),
        HandlerView::Resume(_) => resume_effects(world, settings, job.session, job.timestamp),
        HandlerView::Clear(_) => clear_effects(
            world,
            settings,
            job.session,
            job.source,
            job.timestamp,
        ),
    }
}

/// Whatever the system answers, a startup is over after at most six answers. It has
/// then done what it should, and the session has worktrees exactly if some were
/// created.
pub proof fn law_startup(
    world: spec_fn(nat, QuestionView) -> AnswerView,
    settings: SettingsView,
    job: JobView,
)
    requires
        start::handler_for(job.source) is Startup,
    ensures
        handler_run(world, settings, job, 6) == (
            HandlerView::Startup(StartupView::Over(startup_active(world))),
            session::closing(startup_effects(world, settings, job.session, job.timestamp)),
        ),
{
    reveal_with_fuel(handler_run, 7);
    assert(handler_run(world, settings, job, 6).1.effects =~= startup_effects(
        world,
        settings,
        job.session,
        job.timestamp,
    ));
}

/// Whatever the system answers, a resume is over after at most three answers. It has
/// then done what it should, and the session has worktrees exactly if some were
/// restored.
pub proof fn law_resume(
    world: spec_fn(nat, QuestionView) -> AnswerView,
    settings: SettingsView,
    job: JobView,
)
    requires
        job.source == "resume"@,
    ensures
        handler_run(world, settings, job, 3) == (
            HandlerView::Resume(Resume::Over(resume_active(world))),
            session::closing(resume_effects(world, settings, job.session, job.timestamp)),
        ),
{
    reveal_with_fuel(handler_run, 4);
    assert(handler_run(world, settings, job, 3).1.effects =~= resume_effects(
        world,
        settings,
        job.session,
        job.timestamp,
    ));
}

/// Whatever the system answers, the dealing with a clear or a compaction is over after
/// at most four answers, and has then done what it should.
pub proof fn law_clear_and_compact(
    world: spec_fn(nat, QuestionView) -> AnswerView,
    settings: SettingsView,
    job: JobView,
)
    requires
        start::handler_for(job.source) is Clear,
    ensures
        handler_run(world, settings, job, 4) == (
            HandlerView::Clear(ClearView::Over),
            session::closing(
                clear_effects(world, settings, job.session, job.source, job.timestamp),
            ),
        ),
{
    reveal_with_fuel(handler_run, 5);
    assert(handler_run(world, settings, job, 4).1.effects =~= clear_effects(
        world,
        settings,
        job.session,
        job.source,
        job.timestamp,
    ));
}

/// Why the hook was run decides how the session is dealt with: there is a way for
/// `resume` and one for `clear` and `compact`, and everything else is a startup.
pub proof fn law_sources(source: Seq<char>)
    ensures
        start::handler_for("startup"@) == HandlerView::Startup(StartupView::Begin),
        start::handler_for("resume"@) == HandlerView::Resume(Resume::Begin),
        start::handler_for("clear"@) == HandlerView::Clear(ClearView::Begin),
        start::handler_for("compact"@) == HandlerView::Clear(ClearView::Begin),
        source != "resume"@ && source != "clear"@ && source != "compact"@
            ==> start::handler_for(source) == HandlerView::Startup(StartupView::Begin),
{
    reveal_strlit("startup");
    reveal_strlit("resume");
    reveal_strlit("clear");
    reveal_strlit("compact");
    assert("startup"@.len() != "resume"@.len());
    assert("startup"@[0] != "compact"@[0]);
    assert("startup"@.len() != "clear"@.len());
    assert("clear"@.len() != "resume"@.len());
    assert("compact"@.len() != "resume"@.len());
}

/// Leftover logs in the workspace are compressed: every file whose name has the prefix
/// and the suffix of such logs, and the identifier of no session to spare in it.
pub proof fn law_leftover_logs_are_compressed(
    settings: SettingsView,
    workspace: Seq<char>,
    prefix: Seq<char>,
    suffix: Seq<char>,
    spared: Seq<Seq<char>>,
    names: Seq<Seq<u8>>,
    name: Seq<char>,
)
    requires
        settings.workspace == utf8::encode_utf8(workspace),
        path::is_directory(workspace),
        !prefix.contains('*') && !prefix.contains('/'),
        !suffix.contains('*') && !suffix.contains('/'),
        names.contains(utf8::encode_utf8(name)),
        name.len() > 0 ==> name[0] != '/',
        prefix.is_prefix_of(name),
        suffix.is_suffix_of(name),
        prefix.len() + suffix.len() <= name.len(),
        forall|i: int|
            0 <= i < spared.len() && (#[trigger] spared[i]).len() > 0 ==> !text::has_text(
                name,
                spared[i],
            ),
    ensures
        start::names_for(start::log_pattern(settings, prefix, suffix)) == QuestionView::Names(
            utf8::encode_utf8(path::bare(workspace)),
        ),
        start::gzips(
            start::log_pattern(settings, prefix, suffix),
            spared,
            AnswerView::Names(Some(names)),
        ).contains(EffectView::Gzip(path::joined_text(settings.workspace, name))),
{
    reveal_strlit("*");
    let star = recovery::star_pattern(prefix, suffix);
    let bytes = utf8::encode_utf8(name);
    assert("*"@ =~= seq!['*']);
    lemma_star_pattern(prefix, suffix);
    archive::law_pattern_looks_in_directory(workspace, star);
    glob::law_prefix_and_suffix(prefix, suffix, name);
    path::law_text_is_shown(name);
    path::lemma_starts_relative(name);
    path::law_join_to_bare_directory(workspace, bytes);
    archive::law_leftovers_are_compressed(path::bare(workspace), star, spared, names, bytes);
    let files = archive::leftovers(path::bare(workspace), star, spared, names);
    let file = path::joined_text(settings.workspace, name);
    let i = choose|i: int| 0 <= i < files.len() && files[i] == file;
    let effects = start::gzips(
        start::log_pattern(settings, prefix, suffix),
        spared,
        AnswerView::Names(Some(names)),
    );
    assert(effects[i] == EffectView::Gzip(file));
}

/// What is compressed was listed and belongs to no session to spare.
proof fn lemma_gzips_from(
    pattern: Seq<char>,
    spared: Seq<Seq<char>>,
    answer: AnswerView,
    file: Seq<u8>,
)
    requires
        start::gzips(pattern, spared, answer).contains(EffectView::Gzip(file)),
    ensures
        answer matches AnswerView::Names(Some(names)) && exists|name: Seq<u8>|
            {
                &&& #[trigger] names.contains(name)
                &&& !archive::is_spared(name, spared)
                &&& file == path::joined(utf8::encode_utf8(glob::pattern_dir(pattern)), name)
            },
{
    let effects = start::gzips(pattern, spared, answer);
    let i = choose|i: int| 0 <= i < effects.len() && effects[i] == EffectView::Gzip(file);
    if let AnswerView::Names(Some(names)) = answer {
        let dir = glob::pattern_dir(pattern);
        let name_pattern = glob::pattern_name(pattern);
        let files = archive::leftovers(dir, name_pattern, spared, names);
        assert(files[i] == file);
        assert(files.contains(file));
        archive::law_spared_sessions_keep_their_files(dir, name_pattern, spared, names, file);
    }
}

/// The pattern of the logs that a startup asks for as the `k`th thing: changelogs first,
/// then traces.
pub open spec fn log_pattern_at(settings: SettingsView, k: nat) -> Seq<char> {
    if k == 1 {
        start::log_pattern(settings, settings.changelog_prefix, settings.changelog_suffix)
    } else {
        start::log_pattern(settings, settings.trace_prefix, settings.trace_suffix)
    }
}

/// A name is listed among those that a startup asks for as the `k`th thing.
pub open spec fn is_listed_at(
    world: spec_fn(nat, QuestionView) -> AnswerView,
    settings: SettingsView,
    k: nat,
    name: Seq<u8>,
) -> bool {
    world(k, start::names_for(log_pattern_at(settings, k))) matches AnswerView::Names(Some(names))
        && names.contains(name)
}

/// A startup compresses a file only where it was told which sessions are running, and
/// then only one that was listed in the directory of its pattern, for changelogs or for
/// traces, and that belongs neither to a running session nor to its own.
pub proof fn law_only_leftovers_are_compressed(
    world: spec_fn(nat, QuestionView) -> AnswerView,
    settings: SettingsView,
    session: SessionView,
    timestamp: Seq<char>,
    file: Seq<u8>,
)
    requires
        startup_effects(world, settings, session, timestamp).contains(EffectView::Gzip(file)),
    ensures
        world(0, QuestionView::Running) matches AnswerView::Running(running) && exists|
            k: nat,
            name: Seq<u8>,
        |
            {
                let pattern = log_pattern_at(settings, k);
                &&& k == 1 || k == 2
                &&& world(k, start::names_for(pattern)) matches AnswerView::Names(Some(names))
                &&& #[trigger] is_listed_at(world, settings, k, name)
                &&& !archive::is_spared(name, running.push(session.id))
                &&& file == path::joined(utf8::encode_utf8(glob::pattern_dir(pattern)), name)
            },
{
    let effects = startup_effects(world, settings, session, timestamp);
    let i = choose|i: int| 0 <= i < effects.len() && effects[i] == EffectView::Gzip(file);
    if let AnswerView::Running(running) = world(0, QuestionView::Running) {
        let spared = running.push(session.id);
        let changelogs = log_pattern_at(settings, 1);
        let traces = log_pattern_at(settings, 2);
        let first = start::gzips(changelogs, spared, world(1, start::names_for(changelogs)));
        let second = start::gzips(traces, spared, world(2, start::names_for(traces)));
        assert(startup_gzips(world, settings, session) == first + second);
        if i < first.len() {
            assert(effects[i] == first[i]);
            assert(first.contains(EffectView::Gzip(file)));
            lemma_gzips_from(changelogs, spared, world(1, start::names_for(changelogs)), file);
            let names = world(1, start::names_for(changelogs))->Names_0.unwrap();
            let name = choose|name: Seq<u8>|
                {
                    &&& #[trigger] names.contains(name)
                    &&& !archive::is_spared(name, spared)
                    &&& file == path::joined(
                        utf8::encode_utf8(glob::pattern_dir(changelogs)),
                        name,
                    )
                };
            assert(is_listed_at(world, settings, 1, name));
        } else if i < first.len() + second.len() {
            assert(effects[i] == second[i - first.len()]);
            assert(second.contains(EffectView::Gzip(file)));
            lemma_gzips_from(traces, spared, world(2, start::names_for(traces)), file);
            let names = world(2, start::names_for(traces))->Names_0.unwrap();
            let name = choose|name: Seq<u8>|
                {
                    &&& #[trigger] names.contains(name)
                    &&& !archive::is_spared(name, spared)
                    &&& file == path::joined(utf8::encode_utf8(glob::pattern_dir(traces)), name)
                };
            assert(is_listed_at(world, settings, 2, name));
        }
    }
}

/// Sessions never clobber each other: nothing that a startup does compresses a file in
/// the workspace that belongs to a running session, or to its own.
pub proof fn law_running_sessions_keep_their_logs(
    world: spec_fn(nat, QuestionView) -> AnswerView,
    settings: SettingsView,
    workspace: Seq<char>,
    session: SessionView,
    timestamp: Seq<char>,
    running: Seq<Seq<char>>,
    id: Seq<char>,
    name: Seq<u8>,
)
    requires
        settings.workspace == utf8::encode_utf8(workspace),
        path::is_directory(workspace),
        !settings.changelog_prefix.contains('/') && !settings.changelog_suffix.contains('/'),
        !settings.trace_prefix.contains('/') && !settings.trace_suffix.contains('/'),
        // Names that a directory lists hold no separator.
        forall|k: nat, n: Seq<u8>| #[trigger]
            is_listed_at(world, settings, k, n) ==> !n.contains(47),
        !name.contains(47),
        world(0, QuestionView::Running) == AnswerView::Running(running),
        running.contains(id) || id == session.id,
        archive::belongs_to(name, id),
    ensures
        !startup_effects(world, settings, session, timestamp).contains(
            EffectView::Gzip(path::joined(settings.workspace, name)),
        ),
{
    let file = path::joined(settings.workspace, name);
    let spared = running.push(session.id);
    if startup_effects(world, settings, session, timestamp).contains(EffectView::Gzip(file)) {
        law_only_leftovers_are_compressed(world, settings, session, timestamp, file);
        let (k, other) = choose|k: nat, other: Seq<u8>|
            {
                let pattern = log_pattern_at(settings, k);
                &&& k == 1 || k == 2
                &&& world(k, start::names_for(pattern)) matches AnswerView::Names(Some(names))
                &&& #[trigger] is_listed_at(world, settings, k, other)
                &&& !archive::is_spared(other, spared)
                &&& file == path::joined(utf8::encode_utf8(glob::pattern_dir(pattern)), other)
            };
        lemma_star_pattern(settings.changelog_prefix, settings.changelog_suffix);
        lemma_star_pattern(settings.trace_prefix, settings.trace_suffix);
        archive::law_pattern_looks_in_directory(
            workspace,
            recovery::star_pattern(settings.changelog_prefix, settings.changelog_suffix),
        );
        archive::law_pattern_looks_in_directory(
            workspace,
            recovery::star_pattern(settings.trace_prefix, settings.trace_suffix),
        );
        if other.len() > 0 {
            assert(other.contains(other[0]));
        }
        path::law_join_to_bare_directory(workspace, other);
        path::law_join_is_injective(settings.workspace, name, other);
        if id == session.id {
            assert(spared[running.len() as int] == id);
        } else {
            let j = choose|j: int| 0 <= j < running.len() && running[j] == id;
            assert(spared[j] == id);
        }
    }
}

/// A pattern of a prefix, a star and a suffix is a plain name where neither holds a
/// separator.
proof fn lemma_star_pattern(prefix: Seq<char>, suffix: Seq<char>)
    requires
        !prefix.contains('/'),
        !suffix.contains('/'),
    ensures
        path::is_plain(recovery::star_pattern(prefix, suffix)),
        !recovery::star_pattern(prefix, suffix).contains('/'),
{
    reveal_strlit("*");
    let star = recovery::star_pattern(prefix, suffix);
    assert(star[prefix.len() as int] == '*');
    if star.len() <= 2 && !path::is_plain(star) {
        assert(star[prefix.len() as int] == '.');
    }
    if star.contains('/') {
        let i = choose|i: int| 0 <= i < star.len() && star[i] == '/';
        if i < prefix.len() {
            assert(prefix[i] == '/');
        } else if i > prefix.len() {
            assert(suffix[i - prefix.len() - 1] == '/');
        }
    }
}

/// Two effects in a row, the first of which is the `i`th, remove the link to the
/// latest changelog and make one that leads to the changelog of the session `id`.
pub open spec fn relinks_at(
    effects: Seq<EffectView>,
    i: int,
    settings: SettingsView,
    id: Seq<char>,
) -> bool {
    &&& 0 <= i < effects.len() - 1
    &&& effects[i] == EffectView::Remove(settings.changelog_symlink)
    &&& effects[i + 1] == (EffectView::Symlink {
        target: "."@ + settings.agent + "-changelog-"@ + id + ".md"@,
        link: settings.changelog_symlink,
    })
}

/// However a session is dealt with, the link to the latest changelog is removed and
/// then made anew, leading to the changelog of the session.
pub proof fn law_link_is_updated(
    world: spec_fn(nat, QuestionView) -> AnswerView,
    settings: SettingsView,
    job: JobView,
)
    ensures
        exists|i: int| #[trigger]
            relinks_at(handler_effects(world, settings, job), i, settings, job.session.id),
{
    let effects = handler_effects(world, settings, job);
    let session = job.session;
    let link = start::relink(settings, session.id);
    match start::handler_for(job.source) {
        HandlerView::Startup(_) => {
            let last = after_creation(world, session, header_turn(world) + 1);
            let i = effects.len() - last.len() - 2;
            assert(effects[i] == link[0] && effects[i + 1] == link[1]);
            assert(relinks_at(effects, i, settings, session.id));
        },
        HandlerView::Resume(_) => {
            let last = after_reading(world, session);
            let i = effects.len() - last.len() - 2;
            assert(effects[i] == link[0] && effects[i + 1] == link[1]);
            assert(relinks_at(effects, i, settings, session.id));
        },
        HandlerView::Clear(_) => {
            let k: nat = if world(0, QuestionView::Exists(session.changelog_path)) is Yes {
                1
            } else {
                2
            };
            let last = start::announcement(existing_worktrees(world, k));
            let i = effects.len() - last.len() - 2;
            assert(effects[i] == link[0] && effects[i + 1] == link[1]);
            assert(relinks_at(effects, i, settings, session.id));
        },
    }
}

/// Worktrees that could not be created block the session: it is told so and the
/// changelog says so, nothing is recorded or announced, and the session counts as one
/// without worktrees.
pub proof fn law_failed_creation_blocks(
    world: spec_fn(nat, QuestionView) -> AnswerView,
    settings: SettingsView,
    job: JobView,
    error: Seq<char>,
)
    requires
        start::handler_for(job.source) is Startup,
        world(header_turn(world) + 1, QuestionView::CreateWorktrees) == AnswerView::Failed(error),
    ensures
        handler_run(world, settings, job, 6).0 == HandlerView::Startup(StartupView::Over(false)),
        seq![
            EffectView::Append(job.session.changelog_path, output::creation_failure(error)),
            EffectView::Complain("muzzle/session-start: "@ + error),
            EffectView::Print(output::context_line(output::blocked_warning(error))),
        ].is_suffix_of(handler_run(world, settings, job, 6).1.effects),
        forall|i: int|
            0 <= i < handler_run(world, settings, job, 6).1.effects.len() ==> !(
            #[trigger] handler_run(world, settings, job, 6).1.effects[i] is SaveSpec),
        forall|n: nat|
            !((#[trigger] handler_run(world, settings, job, n)).1.next matches Some(question)
                && question is SaveSpec),
{
    law_startup(world, settings, job);
    let effects = startup_effects(world, settings, job.session, job.timestamp);
    let last = start::blocked(job.session, error);
    assert(last =~= effects.subrange(effects.len() - last.len(), effects.len() as int));
    assert forall|n: nat|
        !((#[trigger] handler_run(world, settings, job, n)).1.next matches Some(question)
            && question is SaveSpec) by {
        lemma_nothing_saved(world, settings, job, error, n);
    }
}

/// A startup whose worktrees cannot be created never comes to record any.
proof fn lemma_nothing_saved(
    world: spec_fn(nat, QuestionView) -> AnswerView,
    settings: SettingsView,
    job: JobView,
    error: Seq<char>,
    n: nat,
)
    requires
        start::handler_for(job.source) is Startup,
        world(header_turn(world) + 1, QuestionView::CreateWorktrees) == AnswerView::Failed(error),
    ensures
        ({
            let run = handler_run(world, settings, job, n);
            &&& run.0 matches HandlerView::Startup(state)
            &&& state !is Saving
            &&& state is Creating ==> n == header_turn(world) + 1 && run.1.next == Some(
                QuestionView::CreateWorktrees,
            )
            &&& state is Header ==> n == header_turn(world)
            &&& state is Traces ==> n == 2 && header_turn(world) == 3
            &&& state is Changelogs ==> n == 1 && header_turn(world) == 3
            &&& state is Running ==> n == 0 && run.1.next == Some(QuestionView::Running)
            &&& state !is Begin
            &&& state !is Over ==> run.1.next is Some
            &&& !(run.1.next matches Some(question) && question is SaveSpec)
        }),
    decreases n,
{
    if n > 0 {
        lemma_nothing_saved(world, settings, job, error, (n - 1) as nat);
    }
}

/// After a clear or a compaction an entry is announced exactly if it is recorded and
/// its worktree exists.
pub proof fn law_existing_worktrees_are_announced(
    entries: Seq<SpecEntryView>,
    flags: Seq<bool>,
    e: SpecEntryView,
)
    ensures
        start::flagged(entries, flags).contains(e) == exists|i: int|
            0 <= i < entries.len() && i < flags.len() && #[trigger] entries[i] == e && flags[i],
    decreases entries.len(),
{
    if entries.len() > 0 {
        let shorter = entries.drop_last();
        let before = start::flagged(shorter, flags);
        let after = start::flagged(entries, flags);
        let last = entries.len() - 1;
        law_existing_worktrees_are_announced(shorter, flags, e);
        if exists|i: int|
            0 <= i < entries.len() && i < flags.len() && #[trigger] entries[i] == e && flags[i] {
            let i = choose|i: int|
                0 <= i < entries.len() && i < flags.len() && #[trigger] entries[i] == e
                    && flags[i];
            if i < last {
                assert(shorter[i] == e);
                let j = choose|j: int| 0 <= j < before.len() && before[j] == e;
                assert(after[j] == e);
            } else {
                assert(after.last() == e);
            }
        }
        if after.contains(e) {
            if before.contains(e) {
                let i = choose|i: int|
                    0 <= i < shorter.len() && i < flags.len() && #[trigger] shorter[i] == e
                        && flags[i];
                assert(entries[i] == e);
            } else {
                assert(entries[last] == e && flags[last]) by {
                    let j = choose|j: int| 0 <= j < after.len() && after[j] == e;
                    if j < before.len() {
                        assert(before[j] == e);
                    }
                }
            }
        }
    }
}

// ---------------------------------------------------------------------------
// The hook
// ---------------------------------------------------------------------------

/// How far the hook has come after `n` answers, with all its effects so far. What is
/// asked for as the `k`th thing, counted from 0, `world` answers.
pub open spec fn hook_run(
    world: spec_fn(nat, QuestionView) -> AnswerView,
    settings: SettingsView,
    n: nat,
) -> (RunView, TurnView)
    decreases n,
{
    if n == 0 {
        start::run_step(settings, RunView::Begin, AnswerView::Yes)
    } else {
        let before = hook_run(world, settings, (n - 1) as nat);
        match before.1.next {
            Some(question) => {
                let after = start::run_step(
                    settings,
                    before.0,
                    world((n - 1) as nat, question),
                );
                (
                    after.0,
                    TurnView {
                        effects: before.1.effects + after.1.effects,
                        next: after.1.next,
                    },
                )
            },
            None => before,
        }
    }
}

/// The answers from the `k`th on.
pub open spec fn answers_from(world: spec_fn(nat, QuestionView) -> AnswerView, k: nat) -> spec_fn(
    nat,
    QuestionView,
) -> AnswerView {
    |n: nat, question: QuestionView| world(n + k, question)
}

/// The hook is told to deal with `job`, for a session that goes by `id`.
pub open spec fn told(
    world: spec_fn(nat, QuestionView) -> AnswerView,
    id: Seq<char>,
    job: JobView,
) -> bool {
    &&& world(0, QuestionView::InWorkspace) is Yes
    &&& world(1, QuestionView::Input) matches AnswerView::Input(input)
    &&& id == start::session_id_of(input.session_id)
    &&& job.source == start::source_of(input.source)
    &&& world(2, QuestionView::Resolve(id)) == AnswerView::Session(job.session)
    &&& world(3, QuestionView::Now) matches AnswerView::Seconds(secs)
    &&& job.timestamp == calendar::timestamp(secs as nat)
}

/// What the hook does before it deals with a session: it complains if the marker of
/// the process or the temporary directory could not be made.
pub open spec fn preparation(
    world: spec_fn(nat, QuestionView) -> AnswerView,
    id: Seq<char>,
    job: JobView,
) -> Seq<EffectView> {
    start::complaint_if(world(4, QuestionView::RegisterPid(id)), "failed to register PID: "@)
        + start::complaint_if(
        world(5, QuestionView::MakeDirs(job.session.tmp_dir)),
        "failed to create temp dir: "@,
    )
}

/// The first six answers lead to the dealing with the session.
proof fn lemma_hook_begins(
    world: spec_fn(nat, QuestionView) -> AnswerView,
    settings: SettingsView,
    id: Seq<char>,
    job: JobView,
)
    requires
        told(world, id, job),
    ensures
        ({
            let first = handler_run(answers_from(world, 6), settings, job, 0);
            &&& first.1.next is Some
            &&& hook_run(world, settings, 6) == (
                RunView::Handling(job, first.0),
                TurnView {
                    effects: preparation(world, id, job) + first.1.effects,
                    next: first.1.next,
                },
            )
        }),
{
    reveal_with_fuel(hook_run, 7);
    let first = handler_run(answers_from(world, 6), settings, job, 0);
    assert(hook_run(world, settings, 6).1.effects =~= preparation(world, id, job)
        + first.1.effects);
}

/// While a session is dealt with, the hook does exactly that; once that is done, it
/// goes on to recovery.
#[verifier::rlimit(40)]
proof fn lemma_hook_handles(
    world: spec_fn(nat, QuestionView) -> AnswerView,
    settings: SettingsView,
    id: Seq<char>,
    job: JobView,
    n: nat,
)
    requires
        told(world, id, job),
        n > 0 ==> handler_run(answers_from(world, 6), settings, job, (n - 1) as nat).1.next is Some,
    ensures
        ({
            let run = handler_run(answers_from(world, 6), settings, job, n);
            let effects = preparation(world, id, job) + run.1.effects;
            hook_run(world, settings, n + 6) == if run.1.next is Some {
                (RunView::Handling(job, run.0), TurnView { effects, next: run.1.next })
            } else {
                (
                    RunView::Recovering(job, RecoveryView::Timing(Stage::Dirs)),
                    session::doing(effects, QuestionView::Elapsed),
                )
            }
        }),
    decreases n,
{
    lemma_hook_begins(world, settings, id, job);
    if n > 0 {
        let inner = answers_from(world, 6);
        if n > 1 {
            lemma_still_open(inner, settings, job, (n - 2) as nat);
        }
        lemma_hook_handles(world, settings, id, job, (n - 1) as nat);
        let before = handler_run(inner, settings, job, (n - 1) as nat);
        let answer = world((n + 5) as nat, before.1.next.unwrap());
        let after = start::handler_step(settings, job, before.0, answer);
        lemma_handled(settings, job, after.0, after.1);
        assert(start::run_step(settings, RunView::Handling(job, before.0), answer)
            == start::handled(settings, job, after.0, after.1));
        assert(preparation(world, id, job) + (before.1.effects + after.1.effects) =~= (preparation(
            world,
            id,
            job,
        ) + before.1.effects) + after.1.effects);
    }
}

/// The hook goes on, or turns to recovery.
proof fn lemma_handled(
    settings: SettingsView,
    job: JobView,
    handler: HandlerView,
    turn: TurnView,
)
    ensures
        start::handled(settings, job, handler, turn) == if turn.next is Some {
            (RunView::Handling(job, handler), turn)
        } else {
            (
                RunView::Recovering(job, RecoveryView::Timing(Stage::Dirs)),
                session::doing(turn.effects, QuestionView::Elapsed),
            )
        },
{
    assert(turn.effects + Seq::<EffectView>::empty() =~= turn.effects);
}

/// What is still open was open before.
proof fn lemma_still_open(
    world: spec_fn(nat, QuestionView) -> AnswerView,
    settings: SettingsView,
    job: JobView,
    n: nat,
)
    requires
        handler_run(world, settings, job, n + 1).1.next is Some,
    ensures
        handler_run(world, settings, job, n).1.next is Some,
{
}

/// Where the dealing with a session is over, there is a first time that it was.
proof fn lemma_first_over(
    world: spec_fn(nat, QuestionView) -> AnswerView,
    settings: SettingsView,
    job: JobView,
    n: nat,
) -> (first: nat)
    requires
        handler_run(world, settings, job, 0).1.next is Some,
        handler_run(world, settings, job, n).1.next is None,
    ensures
        0 < first <= n,
        handler_run(world, settings, job, (first - 1) as nat).1.next is Some,
        handler_run(world, settings, job, first) == handler_run(world, settings, job, n),
    decreases n,
{
    if handler_run(world, settings, job, (n - 1) as nat).1.next is None {
        lemma_first_over(world, settings, job, (n - 1) as nat)
    } else {
        n
    }
}

/// A hook that is told what to do does, whatever the system answers, everything that
/// is to be done for the session, and nothing else, within at most twelve answers,
/// and then goes on to recovery.
pub proof fn law_hook_serves_session(
    world: spec_fn(nat, QuestionView) -> AnswerView,
    settings: SettingsView,
    id: Seq<char>,
    job: JobView,
)
    requires
        told(world, id, job),
    ensures
        exists|n: nat|
            n <= 12 && #[trigger] hook_run(world, settings, n) == (
                RunView::Recovering(job, RecoveryView::Timing(Stage::Dirs)),
                session::doing(
                    preparation(world, id, job) + handler_effects(
                        answers_from(world, 6),
                        settings,
                        job,
                    ),
                    QuestionView::Elapsed,
                ),
            ),
{
    let inner = answers_from(world, 6);
    lemma_hook_begins(world, settings, id, job);
    let last: nat = match start::handler_for(job.source) {
        HandlerView::Startup(_) => {
            law_startup(inner, settings, job);
            6
        },
        HandlerView::Resume(_) => {
            law_resume(inner, settings, job);
            3
        },
        HandlerView::Clear(_) => {
            law_clear_and_compact(inner, settings, job);
            4
        },
    };
    let n = lemma_first_over(inner, settings, job, last);
    lemma_hook_handles(world, settings, id, job, n);
    assert(n + 6 <= 12);
}

/// Outside the workspace the hook does nothing at all, and ends well.
pub proof fn law_idle_outside_workspace(
    world: spec_fn(nat, QuestionView) -> AnswerView,
    settings: SettingsView,
)
    requires
        world(0, QuestionView::InWorkspace) !is Yes,
    ensures
        hook_run(world, settings, 1) == (RunView::Over(0), session::closing(Seq::empty())),
{
    reveal_with_fuel(hook_run, 2);
    assert(hook_run(world, settings, 1).1.effects =~= Seq::<EffectView>::empty());
}

/// Where the hook cannot read what it is told, or make sense of it, it complains, does
/// nothing else, and ends badly.
pub proof fn law_bad_input_fails(
    world: spec_fn(nat, QuestionView) -> AnswerView,
    settings: SettingsView,
    why: Seq<char>,
)
    requires
        world(0, QuestionView::InWorkspace) is Yes,
    ensures
        world(1, QuestionView::Input) == AnswerView::Failed(why) ==> hook_run(world, settings, 2)
            == (
            RunView::Over(1),
            session::closing(
                seq![
                    EffectView::Complain(
                        "muzzle/session-start: "@ + ("failed to read stdin: "@ + why),
                    ),
                ],
            ),
        ),
        world(1, QuestionView::Input) == AnswerView::Malformed(why) ==> hook_run(
            world,
            settings,
            2,
        ) == (
            RunView::Over(1),
            session::closing(
                seq![
                    EffectView::Complain(
                        "muzzle/session-start: "@ + ("failed to parse JSON: "@ + why),
                    ),
                ],
            ),
        ),
{
    reveal_with_fuel(hook_run, 3);
    let effects = hook_run(world, settings, 2).1.effects;
    if world(1, QuestionView::Input) == AnswerView::Failed(why) {
        assert(effects =~= seq![
            EffectView::Complain("muzzle/session-start: "@ + ("failed to read stdin: "@ + why)),
        ]);
    }
    if world(1, QuestionView::Input) == AnswerView::Malformed(why) {
        assert(effects =~= seq![
            EffectView::Complain("muzzle/session-start: "@ + ("failed to parse JSON: "@ + why)),
        ]);
    }
}

/// Once the hook knows what to do, it ends well: a failure on the way is complained of
/// or passed over.
pub proof fn law_failures_are_not_fatal(
    settings: SettingsView,
    state: RunView,
    answer: AnswerView,
    code: u8,
)
    requires
        state is Registering || state is Preparing || state is Handling || state is Recovering,
        start::run_step(settings, state, answer).0 == RunView::Over(code),
    ensures
        code == 0,
{
}

// ---------------------------------------------------------------------------
// Recovery
// ---------------------------------------------------------------------------

/// How far recovery has come after `n` answers, with all its effects so far. What is
/// asked for as the `k`th thing, counted from 0, `world` answers.
pub open spec fn recovery_run(
    world: spec_fn(nat, QuestionView) -> AnswerView,
    settings: SettingsView,
    short_id: Seq<char>,
    n: nat,
) -> (RecoveryView, TurnView)
    decreases n,
{
    if n == 0 {
        recovery::recovery_step(settings, short_id, RecoveryView::Begin, AnswerView::Yes)
    } else {
        let before = recovery_run(world, settings, short_id, (n - 1) as nat);
        match before.1.next {
            Some(question) => {
                let after = recovery::recovery_step(
                    settings,
                    short_id,
                    before.0,
                    world((n - 1) as nat, question),
                );
                (
                    after.0,
                    TurnView {
                        effects: before.1.effects + after.1.effects,
                        next: after.1.next,
                    },
                )
            },
            None => before,
        }
    }
}

/// The clock goes by the `k`th answer, and there is time left.
pub open spec fn in_time(world: spec_fn(nat, QuestionView) -> AnswerView, k: nat) -> bool {
    world(k, QuestionView::Elapsed) matches AnswerView::Seconds(elapsed) && elapsed
        < recovery::TIMEOUT_SECS
}

/// When a stage is up that comes after one that is up as the `k`th thing.
pub open spec fn next_stage(world: spec_fn(nat, QuestionView) -> AnswerView, k: nat) -> nat {
    if in_time(world, k) {
        k + 2
    } else {
        k + 1
    }
}

/// What a stage that is up as the `k`th thing clears away: nothing where the time is
/// up, or its directory cannot be read.
pub open spec fn cleared(
    world: spec_fn(nat, QuestionView) -> AnswerView,
    settings: SettingsView,
    stage: Stage,
    k: nat,
) -> Seq<EffectView> {
    let listing = recovery::stage_begin(settings, Seq::empty(), stage).1.next;
    if in_time(world, k) {
        match world(k + 1, listing.unwrap()) {
            AnswerView::Entries(Some(entries), now) => recovery::stage_removals(
                settings,
                stage,
                entries,
                now,
            ),
            _ => Seq::empty(),
        }
    } else {
        Seq::empty()
    }
}

/// A stage that is up as the `k`th thing clears away what it should, and then the next
/// one is up.
proof fn lemma_stage(
    world: spec_fn(nat, QuestionView) -> AnswerView,
    settings: SettingsView,
    short_id: Seq<char>,
    stage: Stage,
    k: nat,
)
    requires
        stage !is Worktrees,
        world(k, QuestionView::Elapsed) is Seconds,
        recovery_run(world, settings, short_id, k).0 == RecoveryView::Timing(stage),
        recovery_run(world, settings, short_id, k).1.next == Some(QuestionView::Elapsed),
    ensures
        recovery_run(world, settings, short_id, next_stage(world, k)) == {
            let effects = recovery_run(world, settings, short_id, k).1.effects + cleared(
                world,
                settings,
                stage,
                k,
            );
            let end = recovery::stage_end(stage, Seq::empty());
            (end.0, TurnView { effects, next: end.1.next })
        },
{
    reveal_with_fuel(recovery_run, 3);
    let effects = recovery_run(world, settings, short_id, k).1.effects + cleared(
        world,
        settings,
        stage,
        k,
    );
    assert(recovery_run(world, settings, short_id, next_stage(world, k)).1.effects =~= effects);
}

/// Recovery takes its stages in order: temporary directories, then markers of
/// processes, then spec files, each cleared only if there is time left when it is up;
/// then, if there is time left, it goes on to the worktrees.
pub proof fn law_recovery_in_order(
    world: spec_fn(nat, QuestionView) -> AnswerView,
    settings: SettingsView,
    short_id: Seq<char>,
)
    requires
        forall|k: nat| (#[trigger] world(k, QuestionView::Elapsed)) is Seconds,
    ensures
        ({
            let second = next_stage(world, 0);
            let third = next_stage(world, second);
            let last = next_stage(world, third);
            recovery_run(world, settings, short_id, last) == (
                RecoveryView::Timing(Stage::Worktrees),
                session::doing(
                    cleared(world, settings, Stage::Dirs, 0) + cleared(
                        world,
                        settings,
                        Stage::Markers,
                        second,
                    ) + cleared(world, settings, Stage::Specs, third),
                    QuestionView::Elapsed,
                ),
            )
        }),
{
    let second = next_stage(world, 0);
    let third = next_stage(world, second);
    let last = next_stage(world, third);
    lemma_stage(world, settings, short_id, Stage::Dirs, 0);
    lemma_stage(world, settings, short_id, Stage::Markers, second);
    lemma_stage(world, settings, short_id, Stage::Specs, third);
    assert(recovery_run(world, settings, short_id, last).1.effects =~= cleared(
        world,
        settings,
        Stage::Dirs,
        0,
    ) + cleared(world, settings, Stage::Markers, second) + cleared(
        world,
        settings,
        Stage::Specs,
        third,
    ));
}

/// When the worktrees are up.
pub open spec fn worktrees_turn(world: spec_fn(nat, QuestionView) -> AnswerView) -> nat {
    next_stage(world, next_stage(world, next_stage(world, 0)))
}

/// Everything that recovery does.
pub open spec fn recovery_effects(
    world: spec_fn(nat, QuestionView) -> AnswerView,
    settings: SettingsView,
    short_id: Seq<char>,
) -> Seq<EffectView> {
    let second = next_stage(world, 0);
    let third = next_stage(world, second);
    let last = worktrees_turn(world);
    cleared(world, settings, Stage::Dirs, 0) + cleared(world, settings, Stage::Markers, second)
        + cleared(world, settings, Stage::Specs, third) + if in_time(world, last) {
        sweep::prune_all(answers_from(world, last + 1), settings, short_id)
    } else {
        Seq::empty()
    }
}

/// While worktrees are pruned, recovery does exactly that.
proof fn lemma_recovery_prunes(
    world: spec_fn(nat, QuestionView) -> AnswerView,
    settings: SettingsView,
    short_id: Seq<char>,
    k: nat,
    m: nat,
)
    requires
        in_time(world, k),
        recovery_run(world, settings, short_id, k).0 == RecoveryView::Timing(Stage::Worktrees),
        recovery_run(world, settings, short_id, k).1.next == Some(QuestionView::Elapsed),
    ensures
        ({
            let pruned = sweep::prune_run(answers_from(world, k + 1), settings, short_id, m);
            recovery_run(world, settings, short_id, k + 1 + m) == (
                RecoveryView::Pruning(pruned.0),
                TurnView {
                    effects: recovery_run(world, settings, short_id, k).1.effects
                        + pruned.1.effects,
                    next: pruned.1.next,
                },
            )
        }),
    decreases m,
{
    let inner = answers_from(world, k + 1);
    let acc = recovery_run(world, settings, short_id, k).1.effects;
    if m > 0 {
        let before = sweep::prune_run(inner, settings, short_id, (m - 1) as nat);
        lemma_recovery_prunes(world, settings, short_id, k, (m - 1) as nat);
        if let Some(question) = before.1.next {
            let answer = world((k + m) as nat, question);
            let after = recovery::prune_step(settings, short_id, before.0, answer);
            assert(recovery::recovery_step(
                settings,
                short_id,
                RecoveryView::Pruning(before.0),
                answer,
            ) == (RecoveryView::Pruning(after.0), after.1));
            assert(acc + before.1.effects + after.1.effects =~= acc + (before.1.effects
                + after.1.effects));
        }
    }
}

/// Whatever the system answers, recovery comes to an end, and has then done everything
/// that it should and nothing else.
pub proof fn law_recovery(
    world: spec_fn(nat, QuestionView) -> AnswerView,
    settings: SettingsView,
    short_id: Seq<char>,
)
    requires
        forall|k: nat| (#[trigger] world(k, QuestionView::Elapsed)) is Seconds,
    ensures
        exists|n: nat| #[trigger]
            recovery_run(world, settings, short_id, n).1 == session::closing(
                recovery_effects(world, settings, short_id),
            ),
{
    let last = worktrees_turn(world);
    let inner = answers_from(world, last + 1);
    law_recovery_in_order(world, settings, short_id);
    let acc = recovery_run(world, settings, short_id, last).1.effects;
    if in_time(world, last) {
        sweep::law_pruning(inner, settings, short_id);
        let m = choose|m: nat|
            {
                &&& (#[trigger] sweep::prune_run(inner, settings, short_id, m)).0 is Over
                &&& sweep::prune_run(inner, settings, short_id, m).1 == session::closing(
                    sweep::prune_all(inner, settings, short_id),
                )
            };
        lemma_recovery_prunes(world, settings, short_id, last, m);
        assert(recovery_run(world, settings, short_id, last + 1 + m).1 == session::closing(
            recovery_effects(world, settings, short_id),
        ));
    } else {
        assert(world(last, QuestionView::Elapsed) is Seconds);
        assert(acc + Seq::<EffectView>::empty() =~= acc);
        assert(recovery_run(world, settings, short_id, last + 1).1 == session::closing(
            recovery_effects(world, settings, short_id),
        ));
    }
}

/// While the hook recovers, it does exactly that; once that is done, it ends well.
proof fn lemma_hook_recovers(
    world: spec_fn(nat, QuestionView) -> AnswerView,
    settings: SettingsView,
    job: JobView,
    k: nat,
    m: nat,
)
    requires
        hook_run(world, settings, k).0 == RunView::Recovering(
            job,
            RecoveryView::Timing(Stage::Dirs),
        ),
        hook_run(world, settings, k).1.next == Some(QuestionView::Elapsed),
    ensures
        ({
            let inner = answers_from(world, k);
            let run = recovery_run(inner, settings, job.session.short_id, m);
            let hook = hook_run(world, settings, k + m);
            &&& hook.1 == (TurnView {
                effects: hook_run(world, settings, k).1.effects + run.1.effects,
                next: run.1.next,
            })
            &&& hook.0 == if run.1.next is Some {
                RunView::Recovering(job, run.0)
            } else {
                RunView::Over(0)
            }
        }),
    decreases m,
{
    let inner = answers_from(world, k);
    let short_id = job.session.short_id;
    let acc = hook_run(world, settings, k).1.effects;
    if m == 0 {
        assert(acc + Seq::<EffectView>::empty() =~= acc);
    } else {
        let before = recovery_run(inner, settings, short_id, (m - 1) as nat);
        lemma_hook_recovers(world, settings, job, k, (m - 1) as nat);
        if let Some(question) = before.1.next {
            let answer = world((k + m - 1) as nat, question);
            let after = recovery::recovery_step(settings, short_id, before.0, answer);
            assert(acc + before.1.effects + after.1.effects =~= acc + (before.1.effects
                + after.1.effects));
        }
    }
}

/// A hook that is told what to do does, whatever the system answers, everything that is
/// to be done for the session, then everything that recovery does, nothing else, and ends
/// well.
pub proof fn law_hook(
    world: spec_fn(nat, QuestionView) -> AnswerView,
    settings: SettingsView,
    id: Seq<char>,
    job: JobView,
)
    requires
        told(world, id, job),
        forall|k: nat| (#[trigger] world(k, QuestionView::Elapsed)) is Seconds,
    ensures
        exists|began: nat, n: nat|
            {
                &&& began <= 12
                &&& (#[trigger] hook_run(world, settings, began)).0 is Recovering
                &&& #[trigger] hook_run(world, settings, n) == (
                    RunView::Over(0),
                    session::closing(
                        preparation(world, id, job) + handler_effects(
                            answers_from(world, 6),
                            settings,
                            job,
                        ) + recovery_effects(
                            answers_from(world, began),
                            settings,
                            job.session.short_id,
                        ),
                    ),
                )
            },
{
    law_hook_serves_session(world, settings, id, job);
    let served = preparation(world, id, job) + handler_effects(
        answers_from(world, 6),
        settings,
        job,
    );
    let began = choose|began: nat|
        began <= 12 && #[trigger] hook_run(world, settings, began) == (
            RunView::Recovering(job, RecoveryView::Timing(Stage::Dirs)),
            session::doing(served, QuestionView::Elapsed),
        );
    let inner = answers_from(world, began);
    let short_id = job.session.short_id;
    assert forall|k: nat| (#[trigger] inner(k, QuestionView::Elapsed)) is Seconds by {
        assert(world(k + began, QuestionView::Elapsed) is Seconds);
    }
    law_recovery(inner, settings, short_id);
    let m = choose|m: nat| #[trigger]
        recovery_run(inner, settings, short_id, m).1 == session::closing(
            recovery_effects(inner, settings, short_id),
        );
    lemma_hook_recovers(world, settings, job, began, m);
    assert(hook_run(world, settings, began + m) == (
        RunView::Over(0),
        session::closing(served + recovery_effects(inner, settings, short_id)),
    ));
}

/// No stage clears away more than the limit.
pub proof fn law_stages_are_limited(
    world: spec_fn(nat, QuestionView) -> AnswerView,
    settings: SettingsView,
    stage: Stage,
    k: nat,
)
    ensures
        cleared(world, settings, stage, k).len() <= settings.max_cleanup_iterations,
{
}

// ---------------------------------------------------------------------------
// The end
// ---------------------------------------------------------------------------

/// A rank that is lower than another: the first place in which they differ decides.
pub open spec fn lower(a: (nat, nat, nat, nat), b: (nat, nat, nat, nat)) -> bool {
    a.0 < b.0 || (a.0 == b.0 && (a.1 < b.1 || (a.1 == b.1 && (a.2 < b.2 || (a.2 == b.2 && a.3
        < b.3)))))
}

/// How much pruning may still be ahead.
pub open spec fn prune_rank(state: PruneView) -> (nat, nat, nat) {
    match state {
        PruneView::Begin => (3, 0, 0),
        PruneView::Listing => (2, 0, 0),
        PruneView::Testing(s) => (1, s.rest.len(), 5),
        PruneView::Looking(s) => (1, s.rest.len(), 4),
        PruneView::Comparing(s, _) => (1, s.rest.len(), 3),
        PruneView::Branches(s) => (1, s.rest.len(), 2),
        PruneView::Checkouts(s, _) => (1, s.rest.len(), 1),
        PruneView::Over(_) => (0, 0, 0),
    }
}

/// How much dealing with a session may still be ahead.
pub open spec fn handler_rank(handler: HandlerView) -> nat {
    match handler {
        HandlerView::Startup(StartupView::Begin) => 7,
        HandlerView::Startup(StartupView::Running) => 6,
        HandlerView::Startup(StartupView::Changelogs(_)) => 5,
        HandlerView::Startup(StartupView::Traces(_)) => 4,
        HandlerView::Startup(StartupView::Header) => 3,
        HandlerView::Startup(StartupView::Creating) => 2,
        HandlerView::Startup(StartupView::Saving(_)) => 1,
        HandlerView::Startup(StartupView::Over(_)) => 0,
        HandlerView::Resume(Resume::Begin) => 4,
        HandlerView::Resume(Resume::Log) => 3,
        HandlerView::Resume(Resume::Spec) => 2,
        HandlerView::Resume(Resume::Restoring) => 1,
        HandlerView::Resume(Resume::Over(_)) => 0,
        HandlerView::Clear(ClearView::Begin) => 5,
        HandlerView::Clear(ClearView::Log) => 4,
        HandlerView::Clear(ClearView::Restoring) => 3,
        HandlerView::Clear(ClearView::Spec) => 2,
        HandlerView::Clear(ClearView::Existing(_)) => 1,
        HandlerView::Clear(ClearView::Over) => 0,
    }
}

/// How much of the hook may still be ahead.
pub open spec fn run_rank(state: RunView) -> (nat, nat, nat, nat) {
    match state {
        RunView::Begin => (20, 0, 0, 0),
        RunView::Place => (19, 0, 0, 0),
        RunView::Reading => (18, 0, 0, 0),
        RunView::Resolving { .. } => (17, 0, 0, 0),
        RunView::Dating { .. } => (16, 0, 0, 0),
        RunView::Registering(_) => (15, 0, 0, 0),
        RunView::Preparing(_) => (14, 0, 0, 0),
        RunView::Handling(_, handler) => (13, handler_rank(handler), 0, 0),
        RunView::Recovering(_, RecoveryView::Begin) => (12, 0, 0, 0),
        RunView::Recovering(_, RecoveryView::Timing(stage)) => (11, 2 * stages_left(stage) + 1, 0, 0),
        RunView::Recovering(_, RecoveryView::Listing(stage)) => (11, 2 * stages_left(stage), 0, 0),
        RunView::Recovering(_, RecoveryView::Pruning(p)) => (
            10,
            prune_rank(p).0,
            prune_rank(p).1,
            prune_rank(p).2,
        ),
        RunView::Recovering(_, RecoveryView::Over) => (1, 0, 0, 0),
        RunView::Over(_) => (0, 0, 0, 0),
    }
}

/// How many stages come after a stage.
pub open spec fn stages_left(stage: Stage) -> nat {
    match stage {
        Stage::Dirs => 3,
        Stage::Markers => 2,
        Stage::Specs => 1,
        Stage::Worktrees => 0,
    }
}

/// A walk through the workspace has an entry before it.
pub open spec fn is_walking(state: PruneView) -> bool {
    match state {
        PruneView::Testing(s) => s.rest.len() > 0,
        PruneView::Looking(s) => s.rest.len() > 0,
        PruneView::Comparing(s, _) => s.rest.len() > 0,
        PruneView::Branches(s) => s.rest.len() > 0,
        PruneView::Checkouts(s, _) => s.rest.len() > 0,
        _ => true,
    }
}

/// Going on through the workspace leads to an entry that is no earlier, or to the end.
proof fn lemma_survey_goes_on(
    settings: SettingsView,
    s: SurveyView,
    effects: Seq<EffectView>,
)
    ensures
        ({
            let next = recovery::survey_on(settings, s, effects);
            if next.1.next is Some {
                next.0 matches PruneView::Testing(t) && 0 < t.rest.len() <= s.rest.len()
            } else {
                next.0 is Over
            }
        }),
    decreases s.rest.len(),
{
    if !(s.count >= settings.max_cleanup_iterations || s.rest.len() == 0) && s.rest[0].is_dir
        != Some(true) {
        lemma_survey_goes_on(
            settings,
            SurveyView { rest: s.rest.drop_first(), ..s },
            effects,
        );
    }
}

/// With every question that pruning asks, less of it is ahead; where it asks none, it
/// is over.
pub proof fn law_pruning_ends(
    settings: SettingsView,
    short_id: Seq<char>,
    state: PruneView,
    answer: AnswerView,
)
    requires
        is_walking(state),
    ensures
        ({
            let next = recovery::prune_step(settings, short_id, state, answer);
            let (a, b, c) = prune_rank(next.0);
            let (d, e, f) = prune_rank(state);
            &&& is_walking(next.0)
            &&& if next.1.next is Some {
                lower((0, a, b, c), (0, d, e, f))
            } else {
                next.0 is Over
            }
        }),
{
    let none = Seq::<EffectView>::empty();
    match (state, answer) {
        (PruneView::Listing, AnswerView::Entries(Some(entries), now)) => {
            lemma_survey_goes_on(
                settings,
                SurveyView {
                    cutoff: crate::cleanup::earlier_by(
                        now,
                        settings.orphan_worktree_max_age_hours * 3600,
                    ),
                    count: 0,
                    rest: entries,
                },
                none,
            );
        },
        (PruneView::Testing(s), _) => {
            lemma_survey_goes_on(settings, SurveyView { rest: s.rest.drop_first(), ..s }, none);
        },
        (PruneView::Looking(s), _) => {
            lemma_survey_goes_on(settings, SurveyView { rest: s.rest.drop_first(), ..s }, none);
        },
        (PruneView::Branches(s), _) => {
            lemma_survey_goes_on(settings, SurveyView { rest: s.rest.drop_first(), ..s }, none);
        },
        (PruneView::Checkouts(s, branches), AnswerView::Ran(outcome)) => {
            lemma_survey_goes_on(
                settings,
                SurveyView { rest: s.rest.drop_first(), ..s },
                recovery::branch_deletions(
                    recovery::current_repo(settings, s),
                    crate::cleanup::orphaned_branches(branches, recovery::listing_text(outcome)),
                ),
            );
        },
        _ => {},
    }
}

/// A state of the hook in which a walk through the workspace has an entry before it.
pub open spec fn is_on_its_way(state: RunView) -> bool {
    state matches RunView::Recovering(_, RecoveryView::Pruning(p)) ==> is_walking(p)
}

/// Every state that the hook can be in is such a state.
pub proof fn law_states_are_on_their_way(state: Run, limit: usize)
    requires
        state.wf(limit),
    ensures
        is_on_its_way(state.deep_view()),
{
    if let Run::Recovering(_, Recovery::Pruning(p)) = state {
        match p {
            Prune::Testing(s) => recovery::lemma_survey(s, limit),
            Prune::Looking(s) => recovery::lemma_survey(s, limit),
            Prune::Comparing(s, _) => recovery::lemma_survey(s, limit),
            Prune::Branches(s) => recovery::lemma_survey(s, limit),
            Prune::Checkouts(s, _) => recovery::lemma_survey(s, limit),
            _ => {},
        }
    }
}

/// The hook comes to an end, whatever the system answers: with every question that it
/// asks, less of it is ahead, and where it asks none, it is over.
pub proof fn law_hook_ends(settings: SettingsView, state: RunView, answer: AnswerView)
    requires
        is_on_its_way(state),
    ensures
        ({
            let next = start::run_step(settings, state, answer);
            &&& is_on_its_way(next.0)
            &&& if next.1.next is Some {
                lower(run_rank(next.0), run_rank(state))
            } else {
                next.0 is Over
            }
        }),
{
    if let RunView::Recovering(job, r) = state {
        if let RecoveryView::Pruning(p) = r {
            law_pruning_ends(settings, job.session.short_id, p, answer);
        }
    }
}

// ---------------------------------------------------------------------------
// In full
// ---------------------------------------------------------------------------

/// A startup in full. It asks which sessions are running. Where it is told, leftover
/// changelogs and then leftover traces are compressed, those of running sessions and its own
/// aside; where not, none are. The changelog begins with the session, the link leads to it,
/// and worktrees are created. Where they are, all are recorded and announced; where they
/// cannot be, the session is blocked.
pub proof fn law_startup_in_full(
    world: spec_fn(nat, QuestionView) -> AnswerView,
    settings: SettingsView,
    job: JobView,
)
    requires
        job.source != "resume"@,
        job.source != "clear"@,
        job.source != "compact"@,
    ensures
        ({
            let session = job.session;
            let changelogs = start::log_pattern(
                settings,
                settings.changelog_prefix,
                settings.changelog_suffix,
            );
            let traces = start::log_pattern(
                settings,
                settings.trace_prefix,
                settings.trace_suffix,
            );
            let (k, compressed) = match world(0, QuestionView::Running) {
                AnswerView::Running(ids) => (
                    3nat,
                    start::gzips(
                        changelogs,
                        ids.push(session.id),
                        world(
                            1,
                            QuestionView::Names(
                                utf8::encode_utf8(glob::pattern_dir(changelogs)),
                            ),
                        ),
                    ) + start::gzips(
                        traces,
                        ids.push(session.id),
                        world(
                            2,
                            QuestionView::Names(utf8::encode_utf8(glob::pattern_dir(traces))),
                        ),
                    ),
                ),
                _ => (1nat, Seq::empty()),
            };
            let begun = start::complaint_if(
                world(
                    k,
                    QuestionView::Write(
                        session.changelog_path,
                        "## Session: "@ + job.timestamp + " ("@ + session.id + ")\n\n"@,
                    ),
                ),
                "failed to create changelog: "@,
            );
            let created = match world(k + 1, QuestionView::CreateWorktrees) {
                AnswerView::Failed(error) => start::blocked(session, error),
                AnswerView::Created(entries) => if entries.len() > 0 {
                    start::complaint_if(
                        world(k + 2, QuestionView::SaveSpec(entries)),
                        "failed to save spec file: "@,
                    ) + start::announcement(entries)
                } else {
                    Seq::empty()
                },
                _ => Seq::empty(),
            };
            let run = handler_run(world, settings, job, 6);
            &&& run.1.next is None
            &&& run.1.effects == compressed + begun + start::relink(settings, session.id)
                + created
            &&& run.0 == HandlerView::Startup(
                StartupView::Over(
                    world(k + 1, QuestionView::CreateWorktrees) matches AnswerView::Created(es)
                        && es.len() > 0,
                ),
            )
        }),
{
    law_sources(job.source);
    law_startup(world, settings, job);
}

/// A resume in full. The changelog is restored from its archive, or begins anew where it
/// cannot be; the trace is restored, the changelog gets the mark of the resume, and the link
/// leads to it. Where the spec file records worktrees they are restored: what went wrong goes
/// into the changelog, and those that were restored are recorded and announced.
pub proof fn law_resume_in_full(
    world: spec_fn(nat, QuestionView) -> AnswerView,
    settings: SettingsView,
    job: JobView,
)
    requires
        job.source == "resume"@,
    ensures
        ({
            let session = job.session;
            let restored = world(
                0,
                QuestionView::RestoreLog {
                    gz_path: session.changelog_gz_path,
                    log_path: session.changelog_path,
                },
            ) is Yes;
            let log = start::log_restored(settings, session, job.timestamp, restored);
            let run = handler_run(world, settings, job, 3);
            &&& run.1.next is None
            &&& match world(1, QuestionView::ReadSpec) {
                AnswerView::Spec(Some(entries)) if entries.len() > 0 => match world(
                    2,
                    QuestionView::RestoreWorktrees(entries),
                ) {
                    AnswerView::Restored(back, errors) => {
                        &&& run.1.effects == log + start::restore_warnings(
                            session.changelog_path,
                            errors,
                        ) + start::worktrees_restored(back)
                        &&& run.0 == HandlerView::Resume(Resume::Over(back.len() > 0))
                    },
                    _ => {
                        &&& run.1.effects == log
                        &&& run.0 == HandlerView::Resume(Resume::Over(false))
                    },
                },
                _ => {
                    &&& run.1.effects == log
                    &&& run.0 == HandlerView::Resume(Resume::Over(false))
                },
            }
        }),
{
    law_resume(world, settings, job);
    let session = job.session;
    let restored = world(0, log_question(session)) is Yes;
    let log = start::log_restored(settings, session, job.timestamp, restored);
    let after = after_reading(world, session);
    assert(log + Seq::<EffectView>::empty() =~= log);
    if let AnswerView::Spec(Some(entries)) = world(1, QuestionView::ReadSpec) {
        if let AnswerView::Restored(back, errors) = world(
            2,
            QuestionView::RestoreWorktrees(entries),
        ) {
            let warned = start::restore_warnings(session.changelog_path, errors);
            assert(log + (warned + start::worktrees_restored(back)) =~= log + warned
                + start::worktrees_restored(back));
        }
    }
}

/// The dealing with a clear or a compaction in full. Where there is a changelog it stays;
/// where there is none it is restored from its archive, or written again where it cannot be.
/// The link leads to it, and of the worktrees that the spec file records those that exist are
/// announced.
pub proof fn law_clear_and_compact_in_full(
    world: spec_fn(nat, QuestionView) -> AnswerView,
    settings: SettingsView,
    job: JobView,
)
    requires
        job.source == "clear"@ || job.source == "compact"@,
    ensures
        ({
            let session = job.session;
            let (k, log) = if world(0, QuestionView::Exists(session.changelog_path)) is Yes {
                (1nat, Seq::empty())
            } else {
                (
                    2nat,
                    start::log_again(
                        session,
                        job.source,
                        job.timestamp,
                        world(
                            1,
                            QuestionView::RestoreLog {
                                gz_path: session.changelog_gz_path,
                                log_path: session.changelog_path,
                            },
                        ) is Yes,
                    ),
                )
            };
            let linked = log + start::relink(settings, session.id);
            let run = handler_run(world, settings, job, 4);
            &&& run.1.next is None
            &&& run.0 == HandlerView::Clear(ClearView::Over)
            &&& match world(k, QuestionView::ReadSpec) {
                AnswerView::Spec(Some(entries)) => match world(
                    k + 1,
                    QuestionView::WhichExist(start::worktree_paths(entries)),
                ) {
                    AnswerView::Which(flags) => run.1.effects == linked + start::announcement(
                        start::flagged(entries, flags),
                    ),
                    _ => run.1.effects == linked,
                },
                _ => run.1.effects == linked,
            }
        }),
{
    law_sources(job.source);
    law_clear_and_compact(world, settings, job);
    let link = start::relink(settings, job.session.id);
    let k: nat = if world(0, QuestionView::Exists(job.session.changelog_path)) is Yes {
        1
    } else {
        2
    };
    let log = if k == 1 {
        Seq::empty()
    } else {
        start::log_again(
            job.session,
            job.source,
            job.timestamp,
            world(1, log_question(job.session)) is Yes,
        )
    };
    assert(Seq::<EffectView>::empty() + link =~= link);
    assert(log + link + Seq::<EffectView>::empty() =~= log + link);
}

/// The hook asks its questions in order: whether it is in the workspace, what it is told, for
/// which session, what time it is, for the marker of the process and for the temporary
/// directory. It asks the next only once it has what it needs, and does nothing meanwhile but
/// complain.
pub proof fn law_hook_opens(
    world: spec_fn(nat, QuestionView) -> AnswerView,
    settings: SettingsView,
    input: HookInputView,
    session: SessionView,
    secs: u64,
    id: Seq<char>,
    source: Seq<char>,
)
    requires
        world(0, QuestionView::InWorkspace) is Yes,
        world(1, QuestionView::Input) == AnswerView::Input(input),
        match input.session_id {
            Some(told) => id == told,
            None => id == "unknown"@,
        },
        match input.source {
            Some(told) => source == told,
            None => source == "startup"@,
        },
        world(2, QuestionView::Resolve(id)) == AnswerView::Session(session),
        world(3, QuestionView::Now) == AnswerView::Seconds(secs),
    ensures
        ({
            let none = Seq::<EffectView>::empty();
            let unregistered = start::complaint_if(
                world(4, QuestionView::RegisterPid(id)),
                "failed to register PID: "@,
            );
            let asks = |n: nat, effects: Seq<EffectView>, question: QuestionView|
                hook_run(world, settings, n).1 == (TurnView { effects, next: Some(question) });
            &&& asks(0, none, QuestionView::InWorkspace)
            &&& asks(1, none, QuestionView::Input)
            &&& asks(2, none, QuestionView::Resolve(id))
            &&& asks(3, none, QuestionView::Now)
            &&& asks(4, none, QuestionView::RegisterPid(id))
            &&& asks(5, unregistered, QuestionView::MakeDirs(session.tmp_dir))
            &&& hook_run(world, settings, 5).0 == RunView::Preparing(
                JobView { session, timestamp: calendar::timestamp(secs as nat), source },
            )
        }),
{
    reveal_with_fuel(hook_run, 6);
    let none = Seq::<EffectView>::empty();
    assert(none + none =~= none);
    let unregistered = start::complaint_if(
        world(4, QuestionView::RegisterPid(id)),
        "failed to register PID: "@,
    );
    assert(none + unregistered =~= unregistered);
}

/// What the dealing with a session does, by why the hook was run, the hook does, all of it and
/// after its complaints about the marker and the temporary directory, if any. Then it begins
/// to recover.
pub proof fn law_hook_serves_session_in_full(
    world: spec_fn(nat, QuestionView) -> AnswerView,
    settings: SettingsView,
    input: HookInputView,
    session: SessionView,
    secs: u64,
    id: Seq<char>,
    source: Seq<char>,
)
    requires
        world(0, QuestionView::InWorkspace) is Yes,
        world(1, QuestionView::Input) == AnswerView::Input(input),
        match input.session_id {
            Some(told) => id == told,
            None => id == "unknown"@,
        },
        match input.source {
            Some(told) => source == told,
            None => source == "startup"@,
        },
        world(2, QuestionView::Resolve(id)) == AnswerView::Session(session),
        world(3, QuestionView::Now) == AnswerView::Seconds(secs),
    ensures
        exists|n: nat|
            {
                let job = JobView {
                    session,
                    timestamp: calendar::timestamp(secs as nat),
                    source,
                };
                &&& n <= 12
                &&& #[trigger] hook_run(world, settings, n) == (
                    RunView::Recovering(job, RecoveryView::Timing(Stage::Dirs)),
                    TurnView {
                        effects: start::complaint_if(
                            world(4, QuestionView::RegisterPid(id)),
                            "failed to register PID: "@,
                        ) + start::complaint_if(
                            world(5, QuestionView::MakeDirs(session.tmp_dir)),
                            "failed to create temp dir: "@,
                        ) + handler_run(
                            |n: nat, question: QuestionView| world(n + 6, question),
                            settings,
                            job,
                            6,
                        ).1.effects,
                        next: Some(QuestionView::Elapsed),
                    },
                )
            },
{
    let job = JobView { session, timestamp: calendar::timestamp(secs as nat), source };
    let inner = answers_from(world, 6);
    law_hook_serves_session(world, settings, id, job);
    reveal_with_fuel(handler_run, 4);
    match start::handler_for(source) {
        HandlerView::Startup(_) => law_startup(inner, settings, job),
        HandlerView::Resume(_) => law_resume(inner, settings, job),
        HandlerView::Clear(_) => law_clear_and_compact(inner, settings, job),
    }
    assert(handler_run(inner, settings, job, 6).1.effects == handler_effects(
        inner,
        settings,
        job,
    ));
}

/// While the hook recovers it does what recovery does, for the session that it was run for,
/// and it is over once that is.
pub proof fn law_hook_recovers(
    settings: SettingsView,
    job: JobView,
    state: RecoveryView,
    answer: AnswerView,
)
    ensures
        ({
            let next = start::run_step(settings, RunView::Recovering(job, state), answer);
            let own = recovery::recovery_step(settings, job.session.short_id, state, answer);
            &&& next.1 == own.1
            &&& own.1.next is Some ==> next.0 == RunView::Recovering(job, own.0)
            &&& own.1.next is None ==> next.0 == RunView::Over(0)
        }),
        forall|p: PruneView| #[trigger]
            recovery::recovery_step(
                settings,
                job.session.short_id,
                RecoveryView::Pruning(p),
                answer,
            ) == {
                let next = recovery::prune_step(settings, job.session.short_id, p, answer);
                (RecoveryView::Pruning(next.0), next.1)
            },
{
}

/// A startup never compresses a file whose name has the identifier of a running session in it,
/// or of its own, however long the identifier and wherever it stands in the list.
pub proof fn law_names_of_running_sessions_stay(
    world: spec_fn(nat, QuestionView) -> AnswerView,
    settings: SettingsView,
    workspace: Seq<char>,
    job: JobView,
    running: Seq<Seq<char>>,
    id: Seq<char>,
    front: Seq<char>,
    back: Seq<char>,
)
    requires
        job.source != "resume"@,
        job.source != "clear"@,
        job.source != "compact"@,
        settings.workspace == utf8::encode_utf8(workspace),
        path::is_directory(workspace),
        !settings.changelog_prefix.contains('/') && !settings.changelog_suffix.contains('/'),
        !settings.trace_prefix.contains('/') && !settings.trace_suffix.contains('/'),
        // Names that a directory lists hold no separator.
        forall|k: nat, n: Seq<u8>| #[trigger]
            is_listed_at(world, settings, k, n) ==> !n.contains(47),
        !utf8::encode_utf8(front + id + back).contains(47),
        world(0, QuestionView::Running) == AnswerView::Running(running),
        running.contains(id) || id == job.session.id,
        id.len() > 0,
    ensures
        !handler_run(world, settings, job, 6).1.effects.contains(
            EffectView::Gzip(
                path::joined(settings.workspace, utf8::encode_utf8(front + id + back)),
            ),
        ),
{
    let name = front + id + back;
    law_sources(job.source);
    law_startup(world, settings, job);
    utf8::encode_utf8_valid_utf8(name);
    utf8::encode_utf8_decode_utf8(name);
    text::law_has_text(name, id);
    assert(name == front + id + back);
    law_running_sessions_keep_their_logs(
        world,
        settings,
        workspace,
        job.session,
        job.timestamp,
        running,
        id,
        utf8::encode_utf8(name),
    );
}

} // verus!
