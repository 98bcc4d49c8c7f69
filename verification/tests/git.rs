use muzzle::system::{Invocation, Outcome, Step, Streams};
use muzzle::worktree::git::{
    branch_exists, fetch_and_resolve_default_branch, fetch_origin, get_active_worktrees,
    is_git_repo, is_valid_worktree, read_checked_out_branch, read_origin_branch,
    read_reported_branch, run_git, run_git_output, run_git_strings, worktree_paths, Reply, Request,
};

fn git(args: &[&str], streams: Streams) -> Invocation {
    Invocation {
        program: "git".to_string(),
        args: args.iter().map(|a| a.to_string()).collect(),
        env: None,
        dir: None,
        streams,
    }
}

fn exited(success: bool, status: &str, stdout: &[u8]) -> Outcome {
    Outcome::Exited { success, status: status.to_string(), stdout: stdout.to_vec() }
}

fn good(stdout: &str) -> Outcome {
    exited(true, "exit status: 0", stdout.as_bytes())
}

fn bad() -> Outcome {
    exited(false, "exit status: 1", b"")
}

fn not_started() -> Outcome {
    Outcome::NotStarted("No such file or directory (os error 2)".to_string())
}

#[test]
fn run_git_asks_then_judges() {
    let args = ["-C", "/r", "status"];
    assert_eq!(run_git(&args, &[]), Step::Ask(git(&args, Streams::Piped)));
    assert_eq!(run_git(&args, &[good("")]), Step::Done(Ok(())));
    assert_eq!(
        run_git(&args, &[bad()]),
        Step::Done(Err("git -C /r status exited with exit status: 1".to_string()))
    );
    assert_eq!(
        run_git(&args, &[not_started()]),
        Step::Done(Err(
            "failed to run git: No such file or directory (os error 2)".to_string()
        ))
    );
}

#[test]
fn run_git_strings_is_run_git() {
    let args = vec!["branch".to_string(), "-D".to_string(), "wt/x".to_string()];
    assert_eq!(
        run_git_strings(&args, &[]),
        Step::Ask(git(&["branch", "-D", "wt/x"], Streams::Piped))
    );
    assert_eq!(run_git_strings(&args, &[good("")]), Step::Done(Ok(())));
    assert_eq!(
        run_git_strings(&args, &[bad()]),
        Step::Done(Err("git branch -D wt/x exited with exit status: 1".to_string()))
    );
}

#[test]
fn run_git_output_captures() {
    let args = ["version"];
    assert_eq!(run_git_output(&args, &[]), Step::Ask(git(&args, Streams::Captured)));
    assert_eq!(
        run_git_output(&args, &[good("git version 2\n")]),
        Step::Done(Ok("git version 2\n".to_string()))
    );
    // Only whether it could be started counts.
    assert_eq!(
        run_git_output(&args, &[exited(false, "exit status: 128", b"partly")]),
        Step::Done(Ok("partly".to_string()))
    );
    assert_eq!(
        run_git_output(&args, &[not_started()]),
        Step::Done(Err(
            "failed to run git: No such file or directory (os error 2)".to_string()
        ))
    );
}

#[test]
fn ill_formed_output_is_replaced() {
    assert_eq!(
        run_git_output(&[], &[exited(true, "exit status: 0", b"a\xffb")]),
        Step::Done(Ok("a\u{fffd}b".to_string()))
    );
}

#[test]
fn repositories_have_a_git_entry() {
    assert_eq!(is_git_repo(b"/w/repo", &[]), Step::Ask(b"/w/repo/.git".to_vec()));
    assert_eq!(is_git_repo(b"/w/repo/", &[]), Step::Ask(b"/w/repo/.git".to_vec()));
    assert_eq!(is_git_repo(b"", &[]), Step::Ask(b".git".to_vec()));
    assert_eq!(is_git_repo(b"/w/repo", &[true]), Step::Done(true));
    assert_eq!(is_git_repo(b"/w/repo", &[false]), Step::Done(false));
}

#[test]
fn worktrees_have_a_git_entry() {
    assert_eq!(
        is_valid_worktree("/w/repo/.worktrees/ab", &[]),
        Step::Ask(b"/w/repo/.worktrees/ab/.git".to_vec())
    );
    assert_eq!(is_valid_worktree("/w", &[true]), Step::Done(true));
    assert_eq!(is_valid_worktree("/w", &[false]), Step::Done(false));
}

#[test]
fn branches_are_looked_up_locally_then_on_origin() {
    let local = git(
        &["-C", "/r", "show-ref", "--verify", "--quiet", "refs/heads/wt/ab"],
        Streams::Piped,
    );
    let remote = git(
        &["-C", "/r", "show-ref", "--verify", "--quiet", "refs/remotes/origin/wt/ab"],
        Streams::Piped,
    );
    assert_eq!(branch_exists(b"/r", "wt/ab", &[]), Step::Ask(local));
    assert_eq!(branch_exists(b"/r", "wt/ab", &[good("")]), Step::Done(true));
    assert_eq!(branch_exists(b"/r", "wt/ab", &[bad()]), Step::Ask(remote));
    assert_eq!(branch_exists(b"/r", "wt/ab", &[bad(), good("")]), Step::Done(true));
    assert_eq!(branch_exists(b"/r", "wt/ab", &[bad(), bad()]), Step::Done(false));
    assert_eq!(
        branch_exists(b"/r", "wt/ab", &[not_started(), not_started()]),
        Step::Done(false)
    );
}

#[test]
fn porcelain_listing_names_worktrees() {
    let listing = "worktree /w/repo\nHEAD 1234\nbranch refs/heads/main\n\nworktree /w/repo/.worktrees/a b\nHEAD 5678\ndetached\n\n";
    assert_eq!(worktree_paths(listing), vec!["/w/repo", "/w/repo/.worktrees/a b"]);
    assert_eq!(worktree_paths(""), Vec::<String>::new());
    assert_eq!(worktree_paths(" worktree /x\nworktree\n"), Vec::<String>::new());
}

#[test]
fn active_worktrees_come_from_git() {
    assert_eq!(
        get_active_worktrees(b"/r", &[]),
        Step::Ask(git(&["-C", "/r", "worktree", "list", "--porcelain"], Streams::Captured))
    );
    assert_eq!(
        get_active_worktrees(b"/r", &[good("worktree /r\n")]),
        Step::Done(vec!["/r".to_string()])
    );
    assert_eq!(get_active_worktrees(b"/r", &[not_started()]), Step::Done(vec![]));
}

#[test]
fn fetching_logs_errors_where_it_can() {
    let args = ["-C", "/r", "fetch", "origin", "--prune"];
    assert_eq!(
        fetch_origin(b"/r", b"/t", &[]),
        Step::Ask(Request::CreateLog(b"/t/fetch-error.log".to_vec()))
    );
    assert_eq!(
        fetch_origin(b"/r", b"/t", &[Reply::Created(true)]),
        Step::Ask(Request::Run(git(&args, Streams::ErrorLog)))
    );
    assert_eq!(
        fetch_origin(b"/r", b"/t", &[Reply::Created(false)]),
        Step::Ask(Request::Run(git(&args, Streams::Inherited)))
    );
    assert_eq!(
        fetch_origin(b"/r", b"/t", &[Reply::Created(true), Reply::Ran(bad())]),
        Step::Done(())
    );
}

#[test]
fn branch_names_in_outputs() {
    assert_eq!(read_reported_branch(" trunk\n"), Some("trunk".to_string()));
    assert_eq!(read_reported_branch(" \n"), None);
    assert_eq!(
        read_origin_branch("refs/remotes/origin/develop\n"),
        Some("develop".to_string())
    );
    assert_eq!(read_origin_branch("refs/remotes/origin/\n"), None);
    assert_eq!(read_origin_branch("refs/heads/develop\n"), None);
    assert_eq!(read_checked_out_branch("topic\n"), Some("topic".to_string()));
    assert_eq!(read_checked_out_branch("HEAD\n"), None);
    assert_eq!(read_checked_out_branch("\n"), None);
}

/// Answers each command by `answer`, and counts the requests.
fn resolve(answer: fn(&Invocation) -> Outcome) -> (String, usize) {
    let mut replies: Vec<Reply> = Vec::new();
    loop {
        match fetch_and_resolve_default_branch(b"/r", b"/t", &replies) {
            Step::Ask(Request::Run(i)) => {
                let outcome = answer(&i);
                replies.push(Reply::Ran(outcome));
            }
            Step::Ask(Request::CreateLog(p)) => {
                assert_eq!(p, b"/t/fetch-error.log".to_vec());
                replies.push(Reply::Created(true));
            }
            Step::Done(branch) => return (branch, replies.len()),
        }
    }
}

#[test]
fn hosting_service_comes_first() {
    assert_eq!(
        fetch_and_resolve_default_branch(b"/r", b"/t", &[]),
        Step::Ask(Request::Run(Invocation {
            program: "gh".to_string(),
            args: [
                "repo",
                "view",
                "--json",
                "defaultBranchRef",
                "--jq",
                ".defaultBranchRef.name"
            ]
            .iter()
            .map(|a| a.to_string())
            .collect(),
            env: Some(("GIT_DIR".to_string(), "/r/.git".to_string())),
            dir: Some(b"/r".to_vec()),
            streams: Streams::Captured,
        }))
    );
    assert_eq!(
        resolve(|i| if i.program == "gh" { good("trunk\n") } else { bad() }),
        ("trunk".to_string(), 3)
    );
}

#[test]
fn origin_head_comes_second() {
    assert_eq!(
        resolve(|i| if i.args.contains(&"symbolic-ref".to_string()) {
            good("refs/remotes/origin/develop\n")
        } else {
            bad()
        }),
        ("develop".to_string(), 4)
    );
    assert_eq!(
        fetch_and_resolve_default_branch(b"/r", b"/t", &[Reply::Ran(good("\n"))]),
        Step::Ask(Request::Run(git(
            &["-C", "/r", "symbolic-ref", "refs/remotes/origin/HEAD"],
            Streams::Captured
        )))
    );
}

#[test]
fn main_and_master_come_third() {
    assert_eq!(
        resolve(|i| if i.args.contains(&"refs/remotes/origin/main".to_string()) {
            good("")
        } else {
            bad()
        }),
        ("main".to_string(), 5)
    );
    assert_eq!(
        resolve(|i| if i.args.contains(&"refs/remotes/origin/master".to_string()) {
            good("")
        } else {
            bad()
        }),
        ("master".to_string(), 6)
    );
}

#[test]
fn checked_out_branch_comes_last() {
    assert_eq!(
        resolve(|i| if i.args.contains(&"rev-parse".to_string()) {
            good("topic\n")
        } else {
            not_started()
        }),
        ("topic".to_string(), 7)
    );
}

#[test]
fn master_is_the_last_resort() {
    assert_eq!(resolve(|_| bad()), ("master".to_string(), 7));
    assert_eq!(
        resolve(|i| if i.args.contains(&"rev-parse".to_string()) {
            good("HEAD\n")
        } else {
            bad()
        }),
        ("master".to_string(), 7)
    );
}

#[test]
fn origin_is_fetched_before_the_branch_is_given() {
    let mut replies: Vec<Reply> = vec![Reply::Ran(good("trunk\n"))];
    let mut last: Vec<Request> = Vec::new();
    loop {
        match fetch_and_resolve_default_branch(b"/r", b"/t", &replies) {
            Step::Ask(q) => {
                replies.push(match &q {
                    Request::Run(_) => Reply::Ran(bad()),
                    Request::CreateLog(_) => Reply::Created(false),
                });
                last.push(q);
            }
            Step::Done(branch) => {
                assert_eq!(branch, "trunk");
                break;
            }
        }
    }
    assert_eq!(
        last.last(),
        Some(&Request::Run(git(
            &["-C", "/r", "fetch", "origin", "--prune"],
            Streams::Inherited
        )))
    );
}
