//! Git helper operations for worktree management: run commands, resolve default
//! branches, check branch existence, fetch origin.
//!
//! Each function takes the outcomes of the commands that it has asked for so far,
//! in order, and either asks for the next command or gives its result.

use vstd::prelude::*;
use vstd::utf8;

use crate::path;
use crate::system::Invocation;
use crate::system::InvocationView;
use crate::system::Outcome;
use crate::system::OutcomeView;
use crate::system::Step;
use crate::system::Streams;
use crate::text;

verus! {

// ---------------------------------------------------------------------------
// Running git
// ---------------------------------------------------------------------------

/// A git command.
pub open spec fn git_command(args: Seq<Seq<char>>, streams: Streams) -> InvocationView {
    InvocationView { program: "git"@, args, env: None, dir: None, streams }
}

/// What the outcome of a git command comes to where only its success counts.
pub open spec fn git_verdict(args: Seq<Seq<char>>, outcome: OutcomeView) -> Result<(), Seq<char>> {
    match outcome {
        OutcomeView::NotStarted(reason) => Err("failed to run git: "@ + reason),
        OutcomeView::Exited { success, status, .. } => if success {
            Ok(())
        } else {
            Err("git "@ + text::joined_with(args, " "@) + " exited with "@ + status)
        },
    }
}

/// A run of a git command of which only the success counts.
pub open spec fn git_run(args: Seq<Seq<char>>, outcomes: Seq<OutcomeView>) -> Step<
    InvocationView,
    Result<(), Seq<char>>,
> {
    if outcomes.len() == 0 {
        Step::Ask(git_command(args, Streams::Piped))
    } else {
        Step::Done(git_verdict(args, outcomes[0]))
    }
}

/// The model of a step that ends in success or an error message.
pub open spec fn run_view(step: Step<Invocation, Result<(), String>>) -> Step<
    InvocationView,
    Result<(), Seq<char>>,
> {
    match step {
        Step::Ask(i) => Step::Ask(i.deep_view()),
        Step::Done(Ok(())) => Step::Done(Ok(())),
        Step::Done(Err(e)) => Step::Done(Err(e@)),
    }
}

/// A git command whose output is captured.
pub open spec fn git_read(args: Seq<Seq<char>>, outcomes: Seq<OutcomeView>) -> Step<
    InvocationView,
    Result<Seq<char>, Seq<char>>,
> {
    if outcomes.len() == 0 {
        Step::Ask(git_command(args, Streams::Captured))
    } else {
        Step::Done(
            match outcomes[0] {
                OutcomeView::NotStarted(reason) => Err("failed to run git: "@ + reason),
                OutcomeView::Exited { stdout, .. } => Ok(path::shown(stdout)),
            },
        )
    }
}

/// The model of a step that ends in a text or an error message.
pub open spec fn read_view(step: Step<Invocation, Result<String, String>>) -> Step<
    InvocationView,
    Result<Seq<char>, Seq<char>>,
> {
    match step {
        Step::Ask(i) => Step::Ask(i.deep_view()),
        Step::Done(Ok(t)) => Step::Done(Ok(t@)),
        Step::Done(Err(e)) => Step::Done(Err(e@)),
    }
}

/// The git command with these arguments.
fn git(args: &[&str], streams: Streams) -> (i: Invocation)
    ensures
        i.deep_view() == git_command(args.deep_view(), streams),
{
    Invocation {
        program: "git".to_string(),
        args: text::to_strings(args),
        env: None,
        dir: None,
        streams,
    }
}

/// Run a git command and give `Ok(())` or `Err` with an error message.
pub fn run_git(args: &[&str], outcomes: &[Outcome]) -> (step: Step<Invocation, Result<(), String>>)
    ensures
        run_view(step) == git_run(args.deep_view(), outcomes.deep_view()),
{
    if outcomes.len() == 0 {
        return Step::Ask(git(args, Streams::Piped));
    }
    match &outcomes[0] {
        Outcome::NotStarted(reason) => {
            let mut message = "failed to run git: ".to_string();
            message.append(reason.as_str());
            Step::Done(Err(message))
        },
        Outcome::Exited { success, status, .. } => {
            if *success {
                return Step::Done(Ok(()));
            }
            let mut message = "git ".to_string();
            message.append(text::join(args, " ").as_str());
            message.append(" exited with ");
            message.append(status.as_str());
            Step::Done(Err(message))
        },
    }
}

/// Run a git command, with owned arguments, and give `Ok(())` or `Err` with an
/// error message.
pub fn run_git_strings(args: &[String], outcomes: &[Outcome]) -> (step: Step<
    Invocation,
    Result<(), String>,
>)
    ensures
        run_view(step) == git_run(args.deep_view(), outcomes.deep_view()),
{
    let mut refs: Vec<&str> = Vec::new();
    let mut i: usize = 0;
    while i < args.len()
        invariant
            i <= args@.len(),
            refs@.len() == i,
            forall|j: int| 0 <= j < i ==> (#[trigger] refs@[j])@ == args@[j]@,
        decreases args.len() - i,
    {
        refs.push(args[i].as_str());
        i = i + 1;
    }
    let refs: &[&str] = refs.as_slice();
    assert(refs.deep_view() =~= args.deep_view());
    run_git(refs, outcomes)
}

/// Run a git command and give what it wrote to standard output.
pub fn run_git_output(args: &[&str], outcomes: &[Outcome]) -> (step: Step<
    Invocation,
    Result<String, String>,
>)
    ensures
        read_view(step) == git_read(args.deep_view(), outcomes.deep_view()),
{
    if outcomes.len() == 0 {
        return Step::Ask(git(args, Streams::Captured));
    }
    match &outcomes[0] {
        Outcome::NotStarted(reason) => {
            let mut message = "failed to run git: ".to_string();
            message.append(reason.as_str());
            Step::Done(Err(message))
        },
        Outcome::Exited { stdout, .. } => Step::Done(Ok(path::from_utf8_lossy(stdout.as_slice()))),
    }
}

// ---------------------------------------------------------------------------
// Repositories and worktrees
// ---------------------------------------------------------------------------

/// The test whether a directory is a git checkout: what stands under `.git` in it.
pub open spec fn checkout_test(dir: Seq<u8>, exists: Seq<bool>) -> Step<Seq<u8>, bool> {
    if exists.len() == 0 {
        Step::Ask(path::joined_text(dir, ".git"@))
    } else {
        Step::Done(exists[0])
    }
}

/// The model of a step that asks whether a path exists.
pub open spec fn test_view(step: Step<Vec<u8>, bool>) -> Step<Seq<u8>, bool> {
    match step {
        Step::Ask(p) => Step::Ask(p@),
        Step::Done(yes) => Step::Done(yes),
    }
}

/// Check if a directory is a git repository. Asks for a path whose existence
/// decides it, and takes the answer.
pub fn is_git_repo(dir: &[u8], exists: &[bool]) -> (step: Step<Vec<u8>, bool>)
    ensures
        test_view(step) == checkout_test(dir@, exists@),
{
    if exists.len() == 0 {
        Step::Ask(path::join_text(dir, ".git"))
    } else {
        Step::Done(exists[0])
    }
}

/// Check if a path is a valid worktree checkout. Asks for a path whose existence
/// decides it, and takes the answer.
pub fn is_valid_worktree(dir: &str, exists: &[bool]) -> (step: Step<Vec<u8>, bool>)
    ensures
        test_view(step) == checkout_test(utf8::encode_utf8(dir@), exists@),
{
    is_git_repo(dir.as_bytes(), exists)
}

/// The arguments that look up one reference in a repository.
pub open spec fn show_ref_args(repo: Seq<u8>, reference: Seq<char>) -> Seq<Seq<char>> {
    seq![
        "-C"@,
        path::shown(repo),
        "show-ref"@,
        "--verify"@,
        "--quiet"@,
        reference,
    ]
}

/// The look-up of one reference; only its success counts.
fn show_ref(repo: &str, reference: &str, outcomes: &[Outcome]) -> (step: Step<
    Invocation,
    Result<(), String>,
>)
    ensures
        run_view(step) == git_run(
            seq!["-C"@, repo@, "show-ref"@, "--verify"@, "--quiet"@, reference@],
            outcomes.deep_view(),
        ),
{
    let args: &[&str] = &["-C", repo, "show-ref", "--verify", "--quiet", reference];
    assert(args.deep_view() =~= seq![
        "-C"@,
        repo@,
        "show-ref"@,
        "--verify"@,
        "--quiet"@,
        reference@,
    ]);
    run_git(args, outcomes)
}

/// The search for a branch: first among the local ones, then among those of origin.
pub open spec fn branch_search(
    repo: Seq<u8>,
    branch: Seq<char>,
    outcomes: Seq<OutcomeView>,
) -> Step<InvocationView, bool> {
    if outcomes.len() == 0 {
        Step::Ask(git_command(show_ref_args(repo, "refs/heads/"@ + branch), Streams::Piped))
    } else if outcomes[0].succeeded() {
        Step::Done(true)
    } else if outcomes.len() == 1 {
        Step::Ask(
            git_command(show_ref_args(repo, "refs/remotes/origin/"@ + branch), Streams::Piped),
        )
    } else {
        Step::Done(outcomes[1].succeeded())
    }
}

/// Check if a branch exists locally or on origin.
pub fn branch_exists(repo: &[u8], branch: &str, outcomes: &[Outcome]) -> (step: Step<
    Invocation,
    bool,
>)
    ensures
        step.deep_view() == branch_search(repo@, branch@, outcomes.deep_view()),
{
    let repo_str = path::from_utf8_lossy(repo);
    let mut local = "refs/heads/".to_string();
    local.append(branch);
    match show_ref(repo_str.as_str(), local.as_str(), outcomes) {
        Step::Ask(i) => Step::Ask(i),
        Step::Done(Ok(())) => Step::Done(true),
        Step::Done(Err(_)) => {
            let rest: &[Outcome] = vstd::slice::slice_subrange(outcomes, 1, outcomes.len());
            assert(rest.deep_view() =~= outcomes.deep_view().skip(1));
            let mut remote = "refs/remotes/origin/".to_string();
            remote.append(branch);
            match show_ref(repo_str.as_str(), remote.as_str(), rest) {
                Step::Ask(i) => Step::Ask(i),
                Step::Done(Ok(())) => Step::Done(true),
                Step::Done(Err(_)) => Step::Done(false),
            }
        },
    }
}

/// The paths that git's porcelain listing of worktrees names.
pub open spec fn listed_worktrees(listing: Seq<char>) -> Seq<Seq<char>> {
    text::lines_of(listing).filter_map(|line: Seq<char>| text::after_prefix(line, "worktree "@))
}

/// The arguments that list the worktrees of a repository.
pub open spec fn listing_args(repo: Seq<u8>) -> Seq<Seq<char>> {
    seq!["-C"@, path::shown(repo), "worktree"@, "list"@, "--porcelain"@]
}

/// The listing of the worktrees of a repository.
pub open spec fn worktree_listing(repo: Seq<u8>, outcomes: Seq<OutcomeView>) -> Step<
    InvocationView,
    Seq<Seq<char>>,
> {
    match git_read(listing_args(repo), outcomes) {
        Step::Ask(i) => Step::Ask(i),
        Step::Done(Ok(listing)) => Step::Done(listed_worktrees(listing)),
        Step::Done(Err(_)) => Step::Done(Seq::empty()),
    }
}

/// The paths in git's porcelain listing of worktrees.
pub fn worktree_paths(listing: &str) -> (paths: Vec<String>)
    ensures
        paths.deep_view() == listed_worktrees(listing@),
{
    let lines: Vec<String> = text::lines(listing);
    let mut paths: Vec<String> = Vec::new();
    let mut i: usize = 0;
    let ghost all = lines.deep_view();
    let ghost pick = |line: Seq<char>| text::after_prefix(line, "worktree "@);
    assert(all.take(0).filter_map(pick) =~= Seq::<Seq<char>>::empty());
    while i < lines.len()
        invariant
            i <= lines@.len(),
            all == lines.deep_view(),
            pick == (|line: Seq<char>| text::after_prefix(line, "worktree "@)),
            paths.deep_view() == all.take(i as int).filter_map(pick),
        decreases lines.len() - i,
    {
        let ghost before = paths.deep_view();
        let found = text::strip_prefix(lines[i].as_str(), "worktree ");
        proof {
            all.lemma_filter_map_take_succ(pick, i as int);
            assert(all[i as int] == lines@[i as int]@);
        }
        if let Some(p) = found {
            paths.push(p);
            assert(paths.deep_view() =~= before.push(p@));
        }
        i = i + 1;
    }
    assert(all.take(all.len() as int) == all);
    paths
}

/// Get the list of active worktree paths from git.
pub fn get_active_worktrees(repo: &[u8], outcomes: &[Outcome]) -> (step: Step<
    Invocation,
    Vec<String>,
>)
    ensures
        step.deep_view() == worktree_listing(repo@, outcomes.deep_view()),
{
    let repo_str = path::from_utf8_lossy(repo);
    let args: &[&str] = &["-C", repo_str.as_str(), "worktree", "list", "--porcelain"];
    assert(args.deep_view() =~= listing_args(repo@));
    match run_git_output(args, outcomes) {
        Step::Ask(i) => Step::Ask(i),
        Step::Done(Ok(listing)) => Step::Done(worktree_paths(listing.as_str())),
        Step::Done(Err(_)) => {
            let none: Vec<String> = Vec::new();
            assert(none.deep_view() =~= Seq::<Seq<char>>::empty());
            Step::Done(none)
        },
    }
}

// ---------------------------------------------------------------------------
// Fetching
// ---------------------------------------------------------------------------

/// What fetching and the search for the default branch ask for.
#[derive(Debug, PartialEq, Eq)]
pub enum Request {
    Run(Invocation),
    /// Create a file, empty, to log errors to.
    CreateLog(Vec<u8>),
}

/// The model of a [`Request`].
pub enum RequestView {
    Run(InvocationView),
    CreateLog(Seq<u8>),
}

impl DeepView for Request {
    type V = RequestView;

    open spec fn deep_view(&self) -> RequestView {
        match self {
            Request::Run(i) => RequestView::Run(i.deep_view()),
            Request::CreateLog(p) => RequestView::CreateLog(p@),
        }
    }
}

/// The answer to a [`Request`].
#[derive(Debug, PartialEq, Eq)]
pub enum Reply {
    Ran(Outcome),
    Created(bool),
}

/// The model of a [`Reply`].
pub enum ReplyView {
    Ran(OutcomeView),
    Created(bool),
}

impl DeepView for Reply {
    type V = ReplyView;

    open spec fn deep_view(&self) -> ReplyView {
        match self {
            Reply::Ran(o) => ReplyView::Ran(o.deep_view()),
            Reply::Created(yes) => ReplyView::Created(*yes),
        }
    }
}

impl ReplyView {
    /// A command ran and succeeded.
    pub open spec fn succeeded(self) -> bool {
        self matches ReplyView::Ran(o) && o.succeeded()
    }

    /// What a command wrote, where it succeeded.
    pub open spec fn output(self) -> Option<Seq<char>> {
        match self {
            ReplyView::Ran(OutcomeView::Exited { success, stdout, .. }) => if success {
                Some(path::shown(stdout))
            } else {
                None
            },
            _ => None,
        }
    }
}

/// The fetch of origin. Its errors go to a log in `tmp`, if that can be created.
pub open spec fn fetch(repo: Seq<u8>, tmp: Seq<u8>, replies: Seq<ReplyView>) -> Step<
    RequestView,
    (),
> {
    if replies.len() == 0 {
        Step::Ask(RequestView::CreateLog(path::joined_text(tmp, "fetch-error.log"@)))
    } else if replies.len() == 1 {
        Step::Ask(RequestView::Run(fetch_command(repo, replies[0] == ReplyView::Created(true))))
    } else {
        Step::Done(())
    }
}

/// The command that fetches origin.
pub open spec fn fetch_command(repo: Seq<u8>, logged: bool) -> InvocationView {
    git_command(
        seq!["-C"@, path::shown(repo), "fetch"@, "origin"@, "--prune"@],
        if logged {
            Streams::ErrorLog
        } else {
            Streams::Inherited
        },
    )
}

/// Run git fetch origin --prune (non-fatal).
pub fn fetch_origin(repo: &[u8], tmp: &[u8], replies: &[Reply]) -> (step: Step<Request, ()>)
    ensures
        step.deep_view() == fetch(repo@, tmp@, replies.deep_view()),
{
    if replies.len() == 0 {
        return Step::Ask(Request::CreateLog(path::join_text(tmp, "fetch-error.log")));
    }
    if replies.len() > 1 {
        return Step::Done(());
    }
    let streams = match replies[0] {
        Reply::Created(true) => Streams::ErrorLog,
        _ => Streams::Inherited,
    };
    let repo_str = path::from_utf8_lossy(repo);
    let args: &[&str] = &["-C", repo_str.as_str(), "fetch", "origin", "--prune"];
    assert(args.deep_view() =~= seq![
        "-C"@,
        path::shown(repo@),
        "fetch"@,
        "origin"@,
        "--prune"@,
    ]);
    Step::Ask(Request::Run(git(args, streams)))
}

// ---------------------------------------------------------------------------
// The default branch
// ---------------------------------------------------------------------------

/// The branch that an output consists of, white space aside.
pub open spec fn reported_branch(output: Seq<char>) -> Option<Seq<char>> {
    let branch = text::trimmed(output);
    if branch.len() > 0 {
        Some(branch)
    } else {
        None
    }
}

/// The branch that the symbolic reference `origin/HEAD` stands for.
pub open spec fn origin_branch(output: Seq<char>) -> Option<Seq<char>> {
    match text::after_prefix(text::trimmed(output), "refs/remotes/origin/"@) {
        Some(branch) => if branch.len() > 0 {
            Some(branch)
        } else {
            None
        },
        None => None,
    }
}

/// The branch that is checked out, if it is one.
pub open spec fn checked_out_branch(output: Seq<char>) -> Option<Seq<char>> {
    match reported_branch(output) {
        Some(branch) => if branch != "HEAD"@ {
            Some(branch)
        } else {
            None
        },
        None => None,
    }
}

/// The default branch that the hosting service names in its answer.
pub open spec fn hosted_answer(reply: ReplyView) -> Option<Seq<char>> {
    match reply.output() {
        Some(output) => reported_branch(output),
        None => None,
    }
}

/// The branch that the answer for `origin/HEAD` names.
pub open spec fn origin_answer(reply: ReplyView) -> Option<Seq<char>> {
    match reply.output() {
        Some(output) => origin_branch(output),
        None => None,
    }
}

/// The branch that the answer for what is checked out names.
pub open spec fn head_answer(reply: ReplyView) -> Option<Seq<char>> {
    match reply.output() {
        Some(output) => checked_out_branch(output),
        None => None,
    }
}

/// The question to the hosting service for the default branch.
pub open spec fn hosting_query(repo: Seq<u8>) -> InvocationView {
    InvocationView {
        program: "gh"@,
        args: seq![
            "repo"@,
            "view"@,
            "--json"@,
            "defaultBranchRef"@,
            "--jq"@,
            ".defaultBranchRef.name"@,
        ],
        env: Some(("GIT_DIR"@, path::shown(repo) + "/.git"@)),
        dir: Some(repo),
        streams: Streams::Captured,
    }
}

/// The question what `origin/HEAD` stands for.
pub open spec fn origin_head_query(repo: Seq<u8>) -> InvocationView {
    git_command(
        seq!["-C"@, path::shown(repo), "symbolic-ref"@, "refs/remotes/origin/HEAD"@],
        Streams::Captured,
    )
}

/// The question whether origin has `branch`.
pub open spec fn origin_has_query(repo: Seq<u8>, branch: Seq<char>) -> InvocationView {
    git_command(show_ref_args(repo, "refs/remotes/origin/"@ + branch), Streams::Piped)
}

/// The question what is checked out.
pub open spec fn head_query(repo: Seq<u8>) -> InvocationView {
    git_command(
        seq!["-C"@, path::shown(repo), "rev-parse"@, "--abbrev-ref"@, "HEAD"@],
        Streams::Captured,
    )
}

/// Origin is fetched, and then `branch` is the result.
pub open spec fn fetch_then(
    repo: Seq<u8>,
    tmp: Seq<u8>,
    branch: Seq<char>,
    replies: Seq<ReplyView>,
) -> Step<RequestView, Seq<char>> {
    match fetch(repo, tmp, replies) {
        Step::Ask(q) => Step::Ask(q),
        Step::Done(()) => Step::Done(branch),
    }
}

/// The search for the default branch: the hosting service, then `origin/HEAD`,
/// then a main or a master branch of origin, then what is checked out; where all
/// that fails, master. Once a branch is found, origin is fetched.
pub open spec fn resolution(repo: Seq<u8>, tmp: Seq<u8>, replies: Seq<ReplyView>) -> Step<
    RequestView,
    Seq<char>,
> {
    if replies.len() == 0 {
        Step::Ask(RequestView::Run(hosting_query(repo)))
    } else if hosted_answer(replies[0]) is Some {
        fetch_then(repo, tmp, hosted_answer(replies[0]).unwrap(), replies.skip(1))
    } else if replies.len() == 1 {
        Step::Ask(RequestView::Run(origin_head_query(repo)))
    } else if origin_answer(replies[1]) is Some {
        fetch_then(repo, tmp, origin_answer(replies[1]).unwrap(), replies.skip(2))
    } else if replies.len() == 2 {
        Step::Ask(RequestView::Run(origin_has_query(repo, "main"@)))
    } else if replies[2].succeeded() {
        fetch_then(repo, tmp, "main"@, replies.skip(3))
    } else if replies.len() == 3 {
        Step::Ask(RequestView::Run(origin_has_query(repo, "master"@)))
    } else if replies[3].succeeded() {
        fetch_then(repo, tmp, "master"@, replies.skip(4))
    } else if replies.len() == 4 {
        Step::Ask(RequestView::Run(head_query(repo)))
    } else if head_answer(replies[4]) is Some {
        fetch_then(repo, tmp, head_answer(replies[4]).unwrap(), replies.skip(5))
    } else {
        fetch_then(repo, tmp, "master"@, replies.skip(5))
    }
}

/// The branch that an output consists of, white space aside.
pub fn read_reported_branch(output: &str) -> (branch: Option<String>)
    ensures
        branch.deep_view() == reported_branch(output@),
{
    let branch = text::trim(output);
    if branch.as_str().is_empty() {
        None
    } else {
        Some(branch)
    }
}

/// The branch that the symbolic reference `origin/HEAD` stands for.
pub fn read_origin_branch(output: &str) -> (branch: Option<String>)
    ensures
        branch.deep_view() == origin_branch(output@),
{
    let full = text::trim(output);
    match text::strip_prefix(full.as_str(), "refs/remotes/origin/") {
        Some(branch) => if branch.as_str().is_empty() {
            None
        } else {
            Some(branch)
        },
        None => None,
    }
}

/// The branch that is checked out, if it is one.
pub fn read_checked_out_branch(output: &str) -> (branch: Option<String>)
    ensures
        branch.deep_view() == checked_out_branch(output@),
{
    match read_reported_branch(output) {
        Some(branch) => if text::same_text(branch.as_str(), "HEAD") {
            None
        } else {
            Some(branch)
        },
        None => None,
    }
}

/// What a command wrote, where it succeeded.
fn output_of(reply: &Reply) -> (output: Option<String>)
    ensures
        output.deep_view() == reply.deep_view().output(),
{
    match reply {
        Reply::Ran(Outcome::Exited { success, stdout, .. }) => if *success {
            Some(path::from_utf8_lossy(stdout.as_slice()))
        } else {
            None
        },
        _ => None,
    }
}

/// A command ran and succeeded.
fn did_succeed(reply: &Reply) -> (yes: bool)
    ensures
        yes == reply.deep_view().succeeded(),
{
    match reply {
        Reply::Ran(Outcome::Exited { success, .. }) => *success,
        _ => false,
    }
}

/// The question to the hosting service for the default branch.
fn ask_hosting(repo: &[u8], repo_str: &str) -> (i: Invocation)
    requires
        repo_str@ == path::shown(repo@),
    ensures
        i.deep_view() == hosting_query(repo@),
{
    let args: &[&str] = &[
        "repo",
        "view",
        "--json",
        "defaultBranchRef",
        "--jq",
        ".defaultBranchRef.name",
    ];
    assert(args.deep_view() =~= hosting_query(repo@).args);
    let mut git_dir = repo_str.to_string();
    git_dir.append("/.git");
    Invocation {
        program: "gh".to_string(),
        args: text::to_strings(args),
        env: Some(("GIT_DIR".to_string(), git_dir)),
        dir: Some(path::copy_of(repo)),
        streams: Streams::Captured,
    }
}

/// The question whether origin has `branch`.
fn ask_origin_has(repo_str: &str, branch: &str) -> (i: Invocation)
    ensures
        i.deep_view() == git_command(
            seq![
                "-C"@,
                repo_str@,
                "show-ref"@,
                "--verify"@,
                "--quiet"@,
                "refs/remotes/origin/"@ + branch@,
            ],
            Streams::Piped,
        ),
{
    let mut reference = "refs/remotes/origin/".to_string();
    reference.append(branch);
    let args: &[&str] = &["-C", repo_str, "show-ref", "--verify", "--quiet", reference.as_str()];
    assert(args.deep_view() =~= seq![
        "-C"@,
        repo_str@,
        "show-ref"@,
        "--verify"@,
        "--quiet"@,
        "refs/remotes/origin/"@ + branch@,
    ]);
    git(args, Streams::Piped)
}

/// Origin is fetched, and then `branch` is the result.
fn fetch_before(repo: &[u8], tmp: &[u8], branch: String, replies: &[Reply], used: usize) -> (step:
    Step<Request, String>)
    requires
        used <= replies@.len(),
    ensures
        step.deep_view() == fetch_then(
            repo@,
            tmp@,
            branch@,
            replies.deep_view().skip(used as int),
        ),
{
    let rest: &[Reply] = vstd::slice::slice_subrange(replies, used, replies.len());
    assert(rest.deep_view() =~= replies.deep_view().skip(used as int));
    match fetch_origin(repo, tmp, rest) {
        Step::Ask(q) => Step::Ask(q),
        Step::Done(()) => Step::Done(branch),
    }
}

/// Resolve the default branch.
/// Order: gh API -> origin/HEAD -> origin/main|master -> current HEAD
pub fn fetch_and_resolve_default_branch(repo: &[u8], tmp: &[u8], replies: &[Reply]) -> (step: Step<
    Request,
    String,
>)
    ensures
        step.deep_view() == resolution(repo@, tmp@, replies.deep_view()),
{
    let repo_str = path::from_utf8_lossy(repo);
    if replies.len() == 0 {
        return Step::Ask(Request::Run(ask_hosting(repo, repo_str.as_str())));
    }
    if let Some(output) = output_of(&replies[0]) {
        if let Some(branch) = read_reported_branch(output.as_str()) {
            return fetch_before(repo, tmp, branch, replies, 1);
        }
    }
    if replies.len() == 1 {
        let args: &[&str] = &["-C", repo_str.as_str(), "symbolic-ref", "refs/remotes/origin/HEAD"];
        assert(args.deep_view() =~= origin_head_query(repo@).args);
        return Step::Ask(Request::Run(git(args, Streams::Captured)));
    }
    if let Some(output) = output_of(&replies[1]) {
        if let Some(branch) = read_origin_branch(output.as_str()) {
            return fetch_before(repo, tmp, branch, replies, 2);
        }
    }
    if replies.len() == 2 {
        return Step::Ask(Request::Run(ask_origin_has(repo_str.as_str(), "main")));
    }
    if did_succeed(&replies[2]) {
        return fetch_before(repo, tmp, "main".to_string(), replies, 3);
    }
    if replies.len() == 3 {
        return Step::Ask(Request::Run(ask_origin_has(repo_str.as_str(), "master")));
    }
    if did_succeed(&replies[3]) {
        return fetch_before(repo, tmp, "master".to_string(), replies, 4);
    }
    if replies.len() == 4 {
        let args: &[&str] = &["-C", repo_str.as_str(), "rev-parse", "--abbrev-ref", "HEAD"];
        assert(args.deep_view() =~= head_query(repo@).args);
        return Step::Ask(Request::Run(git(args, Streams::Captured)));
    }
    if let Some(output) = output_of(&replies[4]) {
        if let Some(branch) = read_checked_out_branch(output.as_str()) {
            return fetch_before(repo, tmp, branch, replies, 5);
        }
    }
    fetch_before(repo, tmp, "master".to_string(), replies, 5)
}

// ---------------------------------------------------------------------------
// Laws
// ---------------------------------------------------------------------------

/// The default branch, by what each source says of it.
pub open spec fn default_branch(
    hosted: Option<Seq<char>>,
    origin_head: Option<Seq<char>>,
    has_main: bool,
    has_master: bool,
    head: Option<Seq<char>>,
) -> Seq<char> {
    if hosted is Some {
        hosted.unwrap()
    } else if origin_head is Some {
        origin_head.unwrap()
    } else if has_main {
        "main"@
    } else if has_master {
        "master"@
    } else if head is Some {
        head.unwrap()
    } else {
        "master"@
    }
}

/// The replies after `n` requests of the search, where `world` gives the answers.
pub open spec fn resolution_replies(
    world: spec_fn(RequestView) -> ReplyView,
    repo: Seq<u8>,
    tmp: Seq<u8>,
    n: nat,
) -> Seq<ReplyView>
    decreases n,
{
    if n == 0 {
        Seq::empty()
    } else {
        let replies = resolution_replies(world, repo, tmp, (n - 1) as nat);
        match resolution(repo, tmp, replies) {
            Step::Ask(q) => replies.push(world(q)),
            Step::Done(_) => replies,
        }
    }
}

/// Whatever the system answers, the search for the default branch ends after at
/// most seven requests, in the branch of the first source that names one.
pub proof fn law_default_branch(
    world: spec_fn(RequestView) -> ReplyView,
    repo: Seq<u8>,
    tmp: Seq<u8>,
)
    ensures
        resolution(repo, tmp, resolution_replies(world, repo, tmp, 7)) == Step::<
            RequestView,
            Seq<char>,
        >::Done(
            default_branch(
                hosted_answer(world(RequestView::Run(hosting_query(repo)))),
                origin_answer(world(RequestView::Run(origin_head_query(repo)))),
                world(RequestView::Run(origin_has_query(repo, "main"@))).succeeded(),
                world(RequestView::Run(origin_has_query(repo, "master"@))).succeeded(),
                head_answer(world(RequestView::Run(head_query(repo)))),
            ),
        ),
{
    reveal_with_fuel(resolution_replies, 8);
}

/// The last thing asked for before the default branch is given is the fetch of
/// origin.
pub proof fn law_fetched_before_resolved(repo: Seq<u8>, tmp: Seq<u8>, replies: Seq<ReplyView>)
    requires
        replies.len() > 0,
        resolution(repo, tmp, replies) is Done,
        resolution(repo, tmp, replies.drop_last()) is Ask,
    ensures
        exists|logged: bool|
            resolution(repo, tmp, replies.drop_last()) == Step::<RequestView, Seq<char>>::Ask(
                RequestView::Run(#[trigger] fetch_command(repo, logged)),
            ),
{
    let before = replies.drop_last();
    let used = if hosted_answer(replies[0]) is Some {
        1int
    } else if origin_answer(replies[1]) is Some {
        2
    } else if replies[2].succeeded() {
        3
    } else if replies[3].succeeded() {
        4
    } else {
        5
    };
    assert(replies.skip(used).len() == replies.len() - used);
    assert(before.skip(used).len() == before.len() - used);
    let logged = before.skip(used)[0] == ReplyView::Created(true);
    assert(resolution(repo, tmp, before) == Step::<RequestView, Seq<char>>::Ask(
        RequestView::Run(fetch_command(repo, logged)),
    ));
}

/// The default branch always has a name.
pub proof fn law_default_branch_is_named(repo: Seq<u8>, tmp: Seq<u8>, replies: Seq<ReplyView>)
    ensures
        resolution(repo, tmp, replies) matches Step::Done(branch) ==> branch.len() > 0,
{
    reveal_strlit("main");
    reveal_strlit("master");
}

/// A branch exists exactly if it exists locally or on origin, and finding out
/// takes at most two look-ups.
pub proof fn law_branch_exists(
    world: spec_fn(InvocationView) -> OutcomeView,
    repo: Seq<u8>,
    branch: Seq<char>,
)
    ensures
        ({
            let local = world(
                git_command(show_ref_args(repo, "refs/heads/"@ + branch), Streams::Piped),
            );
            let remote = world(
                git_command(show_ref_args(repo, "refs/remotes/origin/"@ + branch), Streams::Piped),
            );
            branch_search(repo, branch, seq![local, remote]) == Step::<InvocationView, bool>::Done(
                local.succeeded() || remote.succeeded(),
            )
        }),
{
}

/// A git command is `git` with just the arguments given, in the current directory and
/// environment. Of one whose success counts, the verdict is the success itself, and an error
/// says which command it was and how it exited, or why it could not be run.
pub proof fn law_run_git(args: Seq<Seq<char>>, rest: Seq<OutcomeView>, reason: Seq<char>, status: Seq<
    char,
>, stdout: Seq<u8>)
    ensures
        git_run(args, Seq::empty()) == Step::<InvocationView, Result<(), Seq<char>>>::Ask(
            InvocationView {
                program: "git"@,
                args,
                env: None,
                dir: None,
                streams: Streams::Piped,
            },
        ),
        git_run(args, seq![OutcomeView::Exited { success: true, status, stdout }] + rest) == Step::<
            InvocationView,
            Result<(), Seq<char>>,
        >::Done(Ok(())),
        git_run(args, seq![OutcomeView::Exited { success: false, status, stdout }] + rest)
            == Step::<InvocationView, Result<(), Seq<char>>>::Done(
            Err("git "@ + text::joined_with(args, " "@) + " exited with "@ + status),
        ),
        git_run(args, seq![OutcomeView::NotStarted(reason)] + rest) == Step::<
            InvocationView,
            Result<(), Seq<char>>,
        >::Done(Err("failed to run git: "@ + reason)),
{
}

/// A git command whose output is captured gives all of it, whether it succeeds or not, and
/// an error only where it could not be run.
pub proof fn law_run_git_output(
    args: Seq<Seq<char>>,
    rest: Seq<OutcomeView>,
    reason: Seq<char>,
    success: bool,
    status: Seq<char>,
    output: Seq<char>,
)
    ensures
        git_read(args, Seq::empty()) == Step::<InvocationView, Result<Seq<char>, Seq<char>>>::Ask(
            InvocationView {
                program: "git"@,
                args,
                env: None,
                dir: None,
                streams: Streams::Captured,
            },
        ),
        git_read(
            args,
            seq![OutcomeView::Exited { success, status, stdout: utf8::encode_utf8(output) }] + rest,
        ) == Step::<InvocationView, Result<Seq<char>, Seq<char>>>::Done(Ok(output)),
        git_read(args, seq![OutcomeView::NotStarted(reason)] + rest) == Step::<
            InvocationView,
            Result<Seq<char>, Seq<char>>,
        >::Done(Err("failed to run git: "@ + reason)),
{
    path::law_text_is_shown(output);
}

/// A directory is a checkout exactly if there is something under `.git` in it.
pub proof fn law_checkout(dir: Seq<char>, exists: bool, rest: Seq<bool>)
    requires
        dir.len() > 0,
        dir.last() != '/',
    ensures
        checkout_test(utf8::encode_utf8(dir), Seq::empty()) == Step::<Seq<u8>, bool>::Ask(
            utf8::encode_utf8(dir + "/.git"@),
        ),
        checkout_test(utf8::encode_utf8(dir), seq![exists] + rest) == Step::<Seq<u8>, bool>::Done(
            exists,
        ),
{
    reveal_strlit(".git");
    reveal_strlit("/.git");
    path::law_join_text(dir, ".git"@);
    assert(dir + seq!['/'] + ".git"@ =~= dir + "/.git"@);
}

/// A branch is looked for under its full name, among the local branches and then among
/// those of origin, and exists exactly if one of the two look-ups succeeds.
pub proof fn law_branch_lookups(
    repo: Seq<char>,
    branch: Seq<char>,
    local: OutcomeView,
    remote: OutcomeView,
)
    ensures
        ({
            let bytes = utf8::encode_utf8(repo);
            let found = local matches OutcomeView::Exited { success, .. } && success;
            let found_there = remote matches OutcomeView::Exited { success, .. } && success;
            let lookup = |reference: Seq<char>|
                InvocationView {
                    program: "git"@,
                    args: seq!["-C"@, repo, "show-ref"@, "--verify"@, "--quiet"@, reference],
                    env: None,
                    dir: None,
                    streams: Streams::Piped,
                };
            &&& branch_search(bytes, branch, Seq::empty()) == Step::<InvocationView, bool>::Ask(
                lookup("refs/heads/"@ + branch),
            )
            &&& found ==> branch_search(bytes, branch, seq![local]) == Step::<
                InvocationView,
                bool,
            >::Done(true)
            &&& !found ==> branch_search(bytes, branch, seq![local]) == Step::<
                InvocationView,
                bool,
            >::Ask(lookup("refs/remotes/origin/"@ + branch))
            &&& branch_search(bytes, branch, seq![local, remote]) == Step::<
                InvocationView,
                bool,
            >::Done(found || found_there)
        }),
{
    path::law_text_is_shown(repo);
}

/// Git's porcelain listing is read line by line, in order: a line of `worktree ` and a path
/// names that path, whatever it is, and no other line names any.
pub proof fn law_worktrees_line_by_line(line: Seq<char>, tree: Seq<char>, rest: Seq<char>)
    requires
        !line.contains('\n'),
        line.len() > 0 ==> line.last() != '\r',
        !tree.contains('\n'),
        tree.len() > 0 ==> tree.last() != '\r',
    ensures
        listed_worktrees(Seq::empty()) == Seq::<Seq<char>>::empty(),
        listed_worktrees("worktree "@ + tree) == seq![tree],
        listed_worktrees("worktree "@ + tree + seq!['\n'] + rest) == seq![tree] + listed_worktrees(
            rest,
        ),
        !"worktree "@.is_prefix_of(line) ==> listed_worktrees(line + seq!['\n'] + rest)
            == listed_worktrees(rest),
        !"worktree "@.is_prefix_of(line) ==> listed_worktrees(line) == Seq::<Seq<char>>::empty(),
{
    let pick = |line: Seq<char>| text::after_prefix(line, "worktree "@);
    let named = "worktree "@ + tree;
    let none = Seq::<Seq<char>>::empty();
    reveal_strlit("worktree ");
    assert(!named.contains('\n')) by {
        if named.contains('\n') {
            let i = choose|i: int| 0 <= i < named.len() && named[i] == '\n';
            if i >= 9 {
                assert(tree[i - 9] == '\n');
            }
        }
    }
    assert(named.last() != '\r') by {
        if tree.len() == 0 {
            assert(named[8] == ' ');
        }
    }
    text::law_after_prefix(named, "worktree "@, tree);
    text::law_lines(named, rest);
    text::law_lines(line, rest);
    text::lemma_filter_map_concat(seq![named], text::lines_of(rest), pick);
    text::lemma_filter_map_concat(seq![line], text::lines_of(rest), pick);
    Seq::lemma_filter_map_singleton(named, pick);
    Seq::lemma_filter_map_singleton(line, pick);
    assert(none + listed_worktrees(rest) =~= listed_worktrees(rest));
    if line.len() == 0 {
        assert(line =~= Seq::<char>::empty());
    }
}

/// The worktrees that git knows of are those that its porcelain listing of the repository
/// names, and none where git could not be run.
pub proof fn law_active_worktrees(
    repo: Seq<char>,
    success: bool,
    status: Seq<char>,
    listing: Seq<char>,
    reason: Seq<char>,
)
    ensures
        worktree_listing(utf8::encode_utf8(repo), Seq::empty()) == Step::<
            InvocationView,
            Seq<Seq<char>>,
        >::Ask(
            InvocationView {
                program: "git"@,
                args: seq!["-C"@, repo, "worktree"@, "list"@, "--porcelain"@],
                env: None,
                dir: None,
                streams: Streams::Captured,
            },
        ),
        worktree_listing(
            utf8::encode_utf8(repo),
            seq![OutcomeView::Exited { success, status, stdout: utf8::encode_utf8(listing) }],
        ) == Step::<InvocationView, Seq<Seq<char>>>::Done(listed_worktrees(listing)),
        worktree_listing(utf8::encode_utf8(repo), seq![OutcomeView::NotStarted(reason)]) == Step::<
            InvocationView,
            Seq<Seq<char>>,
        >::Done(Seq::empty()),
{
    path::law_text_is_shown(repo);
    path::law_text_is_shown(listing);
}

/// Origin is fetched once the log for its errors was asked for, and logs to it exactly where
/// that was created.
pub proof fn law_fetch(repo: Seq<char>, tmp: Seq<char>, first: ReplyView, second: ReplyView)
    requires
        tmp.len() > 0,
        tmp.last() != '/',
    ensures
        ({
            let (r, t) = (utf8::encode_utf8(repo), utf8::encode_utf8(tmp));
            &&& fetch(r, t, Seq::empty()) == Step::<RequestView, ()>::Ask(
                RequestView::CreateLog(utf8::encode_utf8(tmp + "/fetch-error.log"@)),
            )
            &&& fetch(r, t, seq![first]) == Step::<RequestView, ()>::Ask(
                RequestView::Run(
                    InvocationView {
                        program: "git"@,
                        args: seq!["-C"@, repo, "fetch"@, "origin"@, "--prune"@],
                        env: None,
                        dir: None,
                        streams: if first == ReplyView::Created(true) {
                            Streams::ErrorLog
                        } else {
                            Streams::Inherited
                        },
                    },
                ),
            )
            &&& fetch(r, t, seq![first, second]) == Step::<RequestView, ()>::Done(())
        }),
{
    reveal_strlit("fetch-error.log");
    reveal_strlit("/fetch-error.log");
    path::law_text_is_shown(repo);
    path::law_join_text(tmp, "fetch-error.log"@);
    assert(tmp + seq!['/'] + "fetch-error.log"@ =~= tmp + "/fetch-error.log"@);
}

/// An output that is a branch name with white space around it names exactly that branch,
/// whatever its length: as the default branch, as what is checked out unless that is no
/// branch, and with the path of a remote branch before it as what `origin/HEAD` stands for.
pub proof fn law_branch_in_output(front: Seq<char>, branch: Seq<char>, back: Seq<char>)
    requires
        forall|i: int| 0 <= i < front.len() ==> text::white_space(#[trigger] front[i]),
        forall|i: int| 0 <= i < back.len() ==> text::white_space(#[trigger] back[i]),
        branch.len() > 0 ==> !text::white_space(branch[0]) && !text::white_space(branch.last()),
    ensures
        reported_branch(front + branch + back) == if branch.len() > 0 {
            Some(branch)
        } else {
            None
        },
        checked_out_branch(front + branch + back) == if branch.len() > 0 && branch != "HEAD"@ {
            Some(branch)
        } else {
            None
        },
        branch.len() > 0 ==> origin_branch(front + ("refs/remotes/origin/"@ + branch) + back)
            == Some(branch),
        origin_branch(front + branch + back) matches Some(b) ==> b.len() > 0 && branch
            == "refs/remotes/origin/"@ + b,
{
    reveal_strlit("refs/remotes/origin/");
    let prefix = "refs/remotes/origin/"@;
    text::law_trimmed(front, branch, back);
    if branch.len() > 0 {
        assert(prefix[0] == 'r');
        text::law_trimmed(front, prefix + branch, back);
        text::law_after_prefix(prefix + branch, prefix, branch);
    }
    if let Some(b) = origin_branch(front + branch + back) {
        text::law_after_prefix(branch, prefix, b);
    }
}

/// A command's output counts only where it ran and succeeded.
pub proof fn law_output_counts_on_success(
    status: Seq<char>,
    output: Seq<char>,
    reason: Seq<char>,
    created: bool,
)
    ensures
        ({
            let stdout = utf8::encode_utf8(output);
            let good = ReplyView::Ran(OutcomeView::Exited { success: true, status, stdout });
            let bad = ReplyView::Ran(OutcomeView::Exited { success: false, status, stdout });
            let gone = ReplyView::Ran(OutcomeView::NotStarted(reason));
            &&& good.succeeded()
            &&& !bad.succeeded() && !gone.succeeded() && !ReplyView::Created(created).succeeded()
            &&& hosted_answer(good) == reported_branch(output)
            &&& origin_answer(good) == origin_branch(output)
            &&& head_answer(good) == checked_out_branch(output)
            &&& hosted_answer(bad) is None && origin_answer(bad) is None && head_answer(bad) is None
            &&& hosted_answer(gone) is None && origin_answer(gone) is None && head_answer(
                gone,
            ) is None
        }),
{
    path::law_text_is_shown(output);
}

/// The search for the default branch goes by the hosting service, then by what `origin/HEAD`
/// stands for, then by whether origin has `main`, then by whether it has `master`, and then by
/// what is checked out. The first that names a branch decides, and where none does it is
/// `master`.
pub proof fn law_default_branch_in_full(
    world: spec_fn(RequestView) -> ReplyView,
    repo: Seq<char>,
    tmp: Seq<u8>,
)
    ensures
        ({
            let bytes = utf8::encode_utf8(repo);
            let git = |args: Seq<Seq<char>>, streams: Streams|
                RequestView::Run(
                    InvocationView { program: "git"@, args, env: None, dir: None, streams },
                );
            let hosted = hosted_answer(
                world(
                    RequestView::Run(
                        InvocationView {
                            program: "gh"@,
                            args: seq![
                                "repo"@,
                                "view"@,
                                "--json"@,
                                "defaultBranchRef"@,
                                "--jq"@,
                                ".defaultBranchRef.name"@,
                            ],
                            env: Some(("GIT_DIR"@, repo + "/.git"@)),
                            dir: Some(bytes),
                            streams: Streams::Captured,
                        },
                    ),
                ),
            );
            let origin_head = origin_answer(
                world(
                    git(
                        seq!["-C"@, repo, "symbolic-ref"@, "refs/remotes/origin/HEAD"@],
                        Streams::Captured,
                    ),
                ),
            );
            let has = |reference: Seq<char>|
                world(
                    git(
                        seq!["-C"@, repo, "show-ref"@, "--verify"@, "--quiet"@, reference],
                        Streams::Piped,
                    ),
                ).succeeded();
            let head = head_answer(
                world(
                    git(
                        seq!["-C"@, repo, "rev-parse"@, "--abbrev-ref"@, "HEAD"@],
                        Streams::Captured,
                    ),
                ),
            );
            let branch = if hosted is Some {
                hosted.unwrap()
            } else if origin_head is Some {
                origin_head.unwrap()
            } else if has("refs/remotes/origin/main"@) {
                "main"@
            } else if has("refs/remotes/origin/master"@) {
                "master"@
            } else if head is Some {
                head.unwrap()
            } else {
                "master"@
            };
            resolution(bytes, tmp, resolution_replies(world, bytes, tmp, 7)) == Step::<
                RequestView,
                Seq<char>,
            >::Done(branch)
        }),
{
    path::law_text_is_shown(repo);
    reveal_strlit("refs/remotes/origin/");
    reveal_strlit("refs/remotes/origin/main");
    reveal_strlit("refs/remotes/origin/master");
    reveal_strlit("main");
    reveal_strlit("master");
    assert("refs/remotes/origin/"@ + "main"@ =~= "refs/remotes/origin/main"@);
    assert("refs/remotes/origin/"@ + "master"@ =~= "refs/remotes/origin/master"@);
    law_default_branch(world, utf8::encode_utf8(repo), tmp);
}

/// The search goes from one source to the next only where the one before named no branch,
/// and once a branch is named only origin is fetched before it is given.
pub proof fn law_search_stops_at_first_answer(
    repo: Seq<char>,
    tmp: Seq<u8>,
    tried: Seq<ReplyView>,
    reply: ReplyView,
    fetching: Seq<ReplyView>,
)
    requires
        tried.len() <= 4,
        tried.len() > 0 ==> hosted_answer(tried[0]) is None,
        tried.len() > 1 ==> origin_answer(tried[1]) is None,
        tried.len() > 2 ==> !tried[2].succeeded(),
        tried.len() > 3 ==> !tried[3].succeeded(),
    ensures
        ({
            let bytes = utf8::encode_utf8(repo);
            let n = tried.len();
            let named = if n == 0 {
                hosted_answer(reply)
            } else if n == 1 {
                origin_answer(reply)
            } else if n == 2 && reply.succeeded() {
                Some("main"@)
            } else if n == 3 && reply.succeeded() {
                Some("master"@)
            } else if n == 4 {
                head_answer(reply)
            } else {
                None
            };
            let branch = if n == 4 && named is None {
                Some("master"@)
            } else {
                named
            };
            &&& resolution(bytes, tmp, tried) is Ask
            &&& n == 1 ==> resolution(bytes, tmp, tried) == Step::<RequestView, Seq<char>>::Ask(
                RequestView::Run(
                    InvocationView {
                        program: "git"@,
                        args: seq!["-C"@, repo, "symbolic-ref"@, "refs/remotes/origin/HEAD"@],
                        env: None,
                        dir: None,
                        streams: Streams::Captured,
                    },
                ),
            )
            &&& n == 4 ==> resolution(bytes, tmp, tried) == Step::<RequestView, Seq<char>>::Ask(
                RequestView::Run(
                    InvocationView {
                        program: "git"@,
                        args: seq!["-C"@, repo, "rev-parse"@, "--abbrev-ref"@, "HEAD"@],
                        env: None,
                        dir: None,
                        streams: Streams::Captured,
                    },
                ),
            )
            &&& branch is Some ==> resolution(bytes, tmp, tried.push(reply) + fetching) == match fetch(
                bytes,
                tmp,
                fetching,
            ) {
                Step::Ask(q) => Step::<RequestView, Seq<char>>::Ask(q),
                Step::Done(()) => Step::<RequestView, Seq<char>>::Done(branch.unwrap()),
            }
        }),
{
    path::law_text_is_shown(repo);
    let all = tried.push(reply) + fetching;
    let n = tried.len() as int;
    assert(all.skip(n + 1) =~= fetching);
    assert(all[n] == reply);
    assert(forall|i: int| 0 <= i < n ==> all[i] == tried[i]);
}

/// A hosting service that names a branch, with white space around the name, has exactly that
/// branch resolved, whatever its length, once origin was fetched.
pub proof fn law_hosted_branch(
    repo: Seq<u8>,
    tmp: Seq<u8>,
    front: Seq<char>,
    branch: Seq<char>,
    back: Seq<char>,
    status: Seq<char>,
    created: ReplyView,
    fetched: ReplyView,
)
    requires
        forall|i: int| 0 <= i < front.len() ==> text::white_space(#[trigger] front[i]),
        forall|i: int| 0 <= i < back.len() ==> text::white_space(#[trigger] back[i]),
        branch.len() > 0,
        !text::white_space(branch[0]) && !text::white_space(branch.last()),
    ensures
        resolution(
            repo,
            tmp,
            seq![
                ReplyView::Ran(
                    OutcomeView::Exited {
                        success: true,
                        status,
                        stdout: utf8::encode_utf8(front + branch + back),
                    },
                ),
                created,
                fetched,
            ],
        ) == Step::<RequestView, Seq<char>>::Done(branch),
{
    law_branch_in_output(front, branch, back);
    path::law_text_is_shown(front + branch + back);
}

/// Where no other source names a branch, what is checked out is resolved, whatever the
/// length of its name, once origin was fetched.
pub proof fn law_checked_out_branch(
    repo: Seq<u8>,
    tmp: Seq<u8>,
    front: Seq<char>,
    branch: Seq<char>,
    back: Seq<char>,
    status: Seq<char>,
    tried: Seq<ReplyView>,
    created: ReplyView,
    fetched: ReplyView,
)
    requires
        forall|i: int| 0 <= i < front.len() ==> text::white_space(#[trigger] front[i]),
        forall|i: int| 0 <= i < back.len() ==> text::white_space(#[trigger] back[i]),
        branch.len() > 0,
        !text::white_space(branch[0]) && !text::white_space(branch.last()),
        branch != "HEAD"@,
        tried.len() == 4,
        forall|i: int|
            0 <= i < 4 ==> !((#[trigger] tried[i]) matches ReplyView::Ran(
                OutcomeView::Exited { success, .. },
            ) && success),
    ensures
        resolution(
            repo,
            tmp,
            tried + seq![
                ReplyView::Ran(
                    OutcomeView::Exited {
                        success: true,
                        status,
                        stdout: utf8::encode_utf8(front + branch + back),
                    },
                ),
                created,
                fetched,
            ],
        ) == Step::<RequestView, Seq<char>>::Done(branch),
{
    law_branch_in_output(front, branch, back);
    path::law_text_is_shown(front + branch + back);
    let all = tried + seq![
        ReplyView::Ran(
            OutcomeView::Exited {
                success: true,
                status,
                stdout: utf8::encode_utf8(front + branch + back),
            },
        ),
        created,
        fetched,
    ];
    assert(all[0] == tried[0] && all[1] == tried[1] && all[2] == tried[2] && all[3] == tried[3]);
}

/// What is settled stays settled: answers beyond those that were asked for make no difference,
/// however many they are.
pub proof fn law_settled_stays_settled(
    repo: Seq<u8>,
    tmp: Seq<u8>,
    branch: Seq<char>,
    outcomes: Seq<OutcomeView>,
    more_outcomes: Seq<OutcomeView>,
    replies: Seq<ReplyView>,
    more_replies: Seq<ReplyView>,
)
    ensures
        branch_search(repo, branch, outcomes) is Done ==> branch_search(
            repo,
            branch,
            outcomes + more_outcomes,
        ) == branch_search(repo, branch, outcomes),
        worktree_listing(repo, outcomes) is Done ==> worktree_listing(
            repo,
            outcomes + more_outcomes,
        ) == worktree_listing(repo, outcomes),
        fetch(repo, tmp, replies) is Done ==> fetch(repo, tmp, replies + more_replies) is Done,
        resolution(repo, tmp, replies) is Done ==> resolution(repo, tmp, replies + more_replies)
            == resolution(repo, tmp, replies),
{
    let all = replies + more_replies;
    assert forall|k: int| 0 <= k <= replies.len() implies #[trigger] all.skip(k) == replies.skip(k)
        + more_replies by {
        assert(all.skip(k) =~= replies.skip(k) + more_replies);
    }
    assert forall|k: int| 0 <= k < replies.len() implies #[trigger] all[k] == replies[k] by {}
    assert forall|k: int| 0 <= k < outcomes.len() implies #[trigger] (outcomes
        + more_outcomes)[k] == outcomes[k] by {}
}

} // verus!
