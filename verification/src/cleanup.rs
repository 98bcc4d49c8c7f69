//! What sessions that ended badly leave behind, and what of it may go.

use vstd::prelude::*;
use vstd::utf8;

use crate::archive;
use crate::glob;
use crate::path;
use crate::text;

verus! {

// ---------------------------------------------------------------------------
// Age
// ---------------------------------------------------------------------------

/// A moment: seconds since the epoch, and nanoseconds within the second.
#[derive(Clone, Copy, Debug, PartialEq, Eq)]
pub struct Moment {
    pub secs: i64,
    pub nanos: u32,
}

/// `a` comes before `b`.
pub open spec fn before(a: Moment, b: Moment) -> bool {
    a.secs < b.secs || (a.secs == b.secs && a.nanos < b.nanos)
}

/// The moment `age` seconds before `now`.
pub open spec fn earlier_by(now: Moment, age: int) -> Moment {
    Moment { secs: (now.secs - age) as i64, nanos: now.nanos }
}

/// There is a moment `age` seconds before `now`, and `age` can be counted.
pub open spec fn can_go_back(now: Moment, age: int) -> bool {
    0 <= age <= u64::MAX && i64::MIN <= now.secs - age
}

/// Whether `a` comes before `b`.
fn is_before(a: &Moment, b: &Moment) -> (yes: bool)
    ensures
        yes == before(*a, *b),
{
    a.secs < b.secs || (a.secs == b.secs && a.nanos < b.nanos)
}

/// The moment `age` seconds before `now`.
pub fn go_back(now: &Moment, age: u64) -> (then: Moment)
    requires
        can_go_back(*now, age as int),
    ensures
        then == earlier_by(*now, age as int),
{
    Moment { secs: (now.secs as i128 - age as i128) as i64, nanos: now.nanos }
}

// ---------------------------------------------------------------------------
// Listings
// ---------------------------------------------------------------------------

/// An entry of a directory: its name, whether it is a directory, and when it was
/// last modified, the latter two where that is known.
#[derive(Debug, PartialEq, Eq)]
pub struct Listed {
    pub name: Vec<u8>,
    pub is_dir: Option<bool>,
    pub modified: Option<Moment>,
}

/// The model of a [`Listed`] entry.
pub struct ListedView {
    pub name: Seq<u8>,
    pub is_dir: Option<bool>,
    pub modified: Option<Moment>,
}

impl DeepView for Listed {
    type V = ListedView;

    open spec fn deep_view(&self) -> ListedView {
        ListedView { name: self.name@, is_dir: self.is_dir, modified: self.modified }
    }
}

impl ListedView {
    /// Known to be older than `cutoff`.
    pub open spec fn is_older(self, cutoff: Moment) -> bool {
        self.modified matches Some(m) && before(m, cutoff)
    }
}

/// The first `limit` of a sequence, or all of it where it is shorter.
pub open spec fn at_most<A>(limit: nat, s: Seq<A>) -> Seq<A> {
    if limit < s.len() {
        s.take(limit as int)
    } else {
        s
    }
}

/// The paths of entries of the directory `dir`.
pub open spec fn paths_in(dir: Seq<u8>, entries: Seq<ListedView>) -> Seq<Seq<u8>> {
    entries.map_values(|e: ListedView| path::joined(dir, e.name))
}

/// A session's directory that nobody used for long.
pub open spec fn is_stale_dir(e: ListedView, cutoff: Moment) -> bool {
    &&& e.is_dir == Some(true)
    &&& path::shown(e.name) != "by-pid"@
    &&& e.is_older(cutoff)
}

/// A file that nobody touched for long.
pub open spec fn is_stale_file(e: ListedView, cutoff: Moment) -> bool {
    e.is_dir == Some(false) && e.is_older(cutoff)
}

/// A file that matches and that nobody touched for long.
pub open spec fn is_stale_match(e: ListedView, name_pattern: Seq<char>, cutoff: Moment) -> bool {
    glob::name_matches(name_pattern, path::shown(e.name)) && e.is_older(cutoff)
}

/// The directories of `dir` to remove, given its listing: the first `limit` stale ones.
pub open spec fn stale_dirs(
    dir: Seq<u8>,
    entries: Seq<ListedView>,
    cutoff: Moment,
    limit: nat,
) -> Seq<Seq<u8>> {
    at_most(limit, paths_in(dir, entries.filter(|e: ListedView| is_stale_dir(e, cutoff))))
}

/// The files of `dir` to remove, given its listing: the first `limit` stale ones.
pub open spec fn stale_files(
    dir: Seq<u8>,
    entries: Seq<ListedView>,
    cutoff: Moment,
    limit: nat,
) -> Seq<Seq<u8>> {
    at_most(limit, paths_in(dir, entries.filter(|e: ListedView| is_stale_file(e, cutoff))))
}

/// Whether an entry is known to be older than `cutoff`.
fn is_older(e: &Listed, cutoff: &Moment) -> (yes: bool)
    ensures
        yes == e.deep_view().is_older(*cutoff),
{
    match &e.modified {
        Some(m) => is_before(m, cutoff),
        None => false,
    }
}

/// The directories of `parent_dir` to remove, given its listing: at most `limit`
/// of those last modified more than `max_age_days` days ago, in the order of the
/// listing. The directory of process markers stays. Where the directory cannot be read
/// there are none.
pub fn clean_stale_dirs(
    parent_dir: &[u8],
    listing: Option<&[Listed]>,
    now: &Moment,
    max_age_days: u64,
    limit: usize,
) -> (stale: Vec<Vec<u8>>)
    requires
        listing is Some ==> can_go_back(*now, max_age_days * 86400),
    ensures
        match listing {
            Some(entries) => path::views(stale@) == stale_dirs(
                parent_dir@,
                entries.deep_view(),
                earlier_by(*now, max_age_days * 86400),
                limit as nat,
            ),
            None => stale@.len() == 0,
        },
{
    let entries: &[Listed] = match listing {
        Some(entries) => entries,
        None => return Vec::new(),
    };
    let cutoff: Moment = go_back(now, max_age_days * 86400);
    let mut stale: Vec<Vec<u8>> = Vec::new();
    let mut i: usize = 0;
    let ghost all = entries.deep_view();
    let ghost keep = |e: ListedView| is_stale_dir(e, cutoff);
    proof {
        lemma_nothing_selected(parent_dir@, all, keep);
    }
    while i < entries.len() && stale.len() < limit
        invariant
            i <= entries@.len(),
            stale@.len() <= limit,
            all == entries.deep_view(),
            keep == (|e: ListedView| is_stale_dir(e, cutoff)),
            path::views(stale@) == paths_in(parent_dir@, all.take(i as int).filter(keep)),
        decreases entries.len() - i,
    {
        let e = &entries[i];
        let ghost so_far = path::views(stale@);
        proof {
            lemma_select_next(parent_dir@, all, keep, i as int);
        }
        let name = path::from_utf8_lossy(e.name.as_slice());
        if matches!(e.is_dir, Some(true)) && !text::same_text(name.as_str(), "by-pid") && is_older(
            e,
            &cutoff,
        ) {
            let p: Vec<u8> = path::join(parent_dir, e.name.as_slice());
            stale.push(p);
            assert(path::views(stale@) =~= so_far.push(p@));
        }
        i = i + 1;
    }
    proof {
        lemma_selected(parent_dir@, all, keep, i as int, limit as nat);
    }
    stale
}

/// Nothing of the entries is looked at, nothing is selected.
proof fn lemma_nothing_selected(
    dir: Seq<u8>,
    all: Seq<ListedView>,
    keep: spec_fn(ListedView) -> bool,
)
    ensures
        paths_in(dir, all.take(0).filter(keep)) == path::views(Seq::<Vec<u8>>::empty()),
{
    reveal(Seq::filter);
    assert(paths_in(dir, all.take(0).filter(keep)) =~= path::views(Seq::<Vec<u8>>::empty()));
}

/// One entry more is selected, or not.
proof fn lemma_select_next(
    dir: Seq<u8>,
    all: Seq<ListedView>,
    keep: spec_fn(ListedView) -> bool,
    i: int,
)
    requires
        0 <= i < all.len(),
    ensures
        paths_in(dir, all.take(i + 1).filter(keep)) == if keep(all[i]) {
            paths_in(dir, all.take(i).filter(keep)).push(path::joined(dir, all[i].name))
        } else {
            paths_in(dir, all.take(i).filter(keep))
        },
{
    assert(all.take(i + 1) == all.take(i).push(all[i]));
    all.take(i).lemma_filter_push(all[i], keep);
    if keep(all[i]) {
        assert(paths_in(dir, all.take(i).filter(keep).push(all[i])) =~= paths_in(
            dir,
            all.take(i).filter(keep),
        ).push(path::joined(dir, all[i].name)));
    }
}

/// What the first `i` entries give is all there is to select, or as much of it as
/// the limit allows.
proof fn lemma_selected(
    dir: Seq<u8>,
    all: Seq<ListedView>,
    keep: spec_fn(ListedView) -> bool,
    i: int,
    limit: nat,
)
    requires
        0 <= i <= all.len(),
        all.take(i).filter(keep).len() <= limit,
        i == all.len() || all.take(i).filter(keep).len() == limit,
    ensures
        at_most(limit, paths_in(dir, all.filter(keep))) == paths_in(dir, all.take(i).filter(keep)),
{
    assert(all == all.take(i) + all.skip(i));
    Seq::filter_distributes_over_add(all.take(i), all.skip(i), keep);
    if i == all.len() {
        assert(all.take(i) == all);
    } else {
        assert(at_most(limit, paths_in(dir, all.filter(keep))) =~= paths_in(
            dir,
            all.take(i).filter(keep),
        ));
    }
}

/// The files of `dir` to remove, given its listing: at most `limit` of those last
/// modified more than `max_age_days` days ago, in the order of the listing. Where the
/// directory cannot be read there are none.
pub fn clean_stale_files(
    dir: &[u8],
    listing: Option<&[Listed]>,
    now: &Moment,
    max_age_days: u64,
    limit: usize,
) -> (stale: Vec<Vec<u8>>)
    requires
        listing is Some ==> can_go_back(*now, max_age_days * 86400),
    ensures
        match listing {
            Some(entries) => path::views(stale@) == stale_files(
                dir@,
                entries.deep_view(),
                earlier_by(*now, max_age_days * 86400),
                limit as nat,
            ),
            None => stale@.len() == 0,
        },
{
    let entries: &[Listed] = match listing {
        Some(entries) => entries,
        None => return Vec::new(),
    };
    let cutoff: Moment = go_back(now, max_age_days * 86400);
    let mut stale: Vec<Vec<u8>> = Vec::new();
    let mut i: usize = 0;
    let ghost all = entries.deep_view();
    let ghost keep = |e: ListedView| is_stale_file(e, cutoff);
    proof {
        lemma_nothing_selected(dir@, all, keep);
    }
    while i < entries.len() && stale.len() < limit
        invariant
            i <= entries@.len(),
            stale@.len() <= limit,
            all == entries.deep_view(),
            keep == (|e: ListedView| is_stale_file(e, cutoff)),
            path::views(stale@) == paths_in(dir@, all.take(i as int).filter(keep)),
        decreases entries.len() - i,
    {
        let e = &entries[i];
        let ghost so_far = path::views(stale@);
        proof {
            lemma_select_next(dir@, all, keep, i as int);
        }
        if matches!(e.is_dir, Some(false)) && is_older(e, &cutoff) {
            let p: Vec<u8> = path::join(dir, e.name.as_slice());
            stale.push(p);
            assert(path::views(stale@) =~= so_far.push(p@));
        }
        i = i + 1;
    }
    proof {
        lemma_selected(dir@, all, keep, i as int, limit as nat);
    }
    stale
}

/// The stale files of `dir` whose names match, at most `limit` of them.
pub open spec fn stale_matches(
    dir: Seq<char>,
    name_pattern: Seq<char>,
    entries: Seq<ListedView>,
    cutoff: Moment,
    limit: nat,
) -> Seq<Seq<u8>> {
    at_most(
        limit,
        paths_in(
            utf8::encode_utf8(dir),
            entries.filter(|e: ListedView| is_stale_match(e, name_pattern, cutoff)),
        ),
    )
}

/// The stale files of `dir` whose names match, at most `limit` of them.
pub fn stale_in(
    dir: &str,
    name_pattern: &str,
    entries: &[Listed],
    cutoff: &Moment,
    limit: usize,
) -> (stale: Vec<Vec<u8>>)
    ensures
        path::views(stale@) == stale_matches(
            dir@,
            name_pattern@,
            entries.deep_view(),
            *cutoff,
            limit as nat,
        ),
{
    let mut stale: Vec<Vec<u8>> = Vec::new();
    let mut i: usize = 0;
    let ghost base = utf8::encode_utf8(dir@);
    let ghost all = entries.deep_view();
    let ghost keep = |e: ListedView| is_stale_match(e, name_pattern@, *cutoff);
    proof {
        lemma_nothing_selected(base, all, keep);
    }
    while i < entries.len() && stale.len() < limit
        invariant
            i <= entries@.len(),
            stale@.len() <= limit,
            base == utf8::encode_utf8(dir@),
            all == entries.deep_view(),
            keep == (|e: ListedView| is_stale_match(e, name_pattern@, *cutoff)),
            path::views(stale@) == paths_in(base, all.take(i as int).filter(keep)),
        decreases entries.len() - i,
    {
        let e = &entries[i];
        let ghost so_far = path::views(stale@);
        proof {
            lemma_select_next(base, all, keep, i as int);
        }
        let name = path::from_utf8_lossy(e.name.as_slice());
        if glob::matches_name(name_pattern, name.as_str()) && is_older(e, cutoff) {
            let p: Vec<u8> = path::join(dir.as_bytes(), e.name.as_slice());
            stale.push(p);
            assert(path::views(stale@) =~= so_far.push(p@));
        }
        i = i + 1;
    }
    proof {
        lemma_selected(base, all, keep, i as int, limit as nat);
    }
    stale
}

/// The files of `dir` that match `pattern` and are to be removed, given the
/// listing of the directory that [`archive::pattern_in`] looks in: at most `limit`
/// of those last modified more than `max_age_days` days ago, in the order of the
/// listing. Where the directory cannot be read there are none.
pub fn clean_stale_glob(
    dir: &[u8],
    pattern: &str,
    listing: Option<&[Listed]>,
    now: &Moment,
    max_age_days: u64,
    limit: usize,
) -> (stale: Vec<Vec<u8>>)
    requires
        listing is Some ==> can_go_back(*now, max_age_days * 86400),
    ensures
        match listing {
            Some(entries) => {
                let full = archive::full_pattern(dir@, pattern@);
                let cutoff = earlier_by(*now, max_age_days * 86400);
                path::views(stale@) == stale_matches(
                    glob::pattern_dir(full),
                    glob::pattern_name(full),
                    entries.deep_view(),
                    cutoff,
                    limit as nat,
                )
            },
            None => stale@.len() == 0,
        },
{
    let entries: &[Listed] = match listing {
        Some(entries) => entries,
        None => return Vec::new(),
    };
    let full = archive::pattern_in(dir, pattern);
    let base = match path::parent(full.as_str()) {
        Some(d) => d,
        None => ".".to_string(),
    };
    let name_pattern = match path::file_name(full.as_str()) {
        Some(n) => n,
        None => String::new(),
    };
    let cutoff: Moment = go_back(now, max_age_days * 86400);
    stale_in(base.as_str(), name_pattern.as_str(), entries, &cutoff, limit)
}

// ---------------------------------------------------------------------------
// Worktrees
// ---------------------------------------------------------------------------

/// Git knows of a worktree at `wt`. A slash at the end makes no difference.
pub open spec fn is_active(wt: Seq<u8>, active: Seq<Seq<char>>) -> bool {
    exists|i: int|
        0 <= i < active.len() && text::trim_end_char(#[trigger] active[i], '/')
            == text::trim_end_char(path::shown(wt), '/')
}

/// Where a checkout has its worktrees.
pub open spec fn worktrees_dir(checkout: Seq<u8>) -> Seq<u8> {
    path::joined_text(checkout, ".worktrees"@)
}

/// A directory among the worktrees of a checkout that is not the current
/// session's, was not modified since `cutoff`, and that git does not know of.
pub open spec fn is_orphan(
    e: ListedView,
    dir: Seq<u8>,
    active: Seq<Seq<char>>,
    short_id: Seq<char>,
    cutoff: Moment,
) -> bool {
    &&& e.is_dir == Some(true)
    &&& path::shown(e.name) != short_id
    &&& e.is_older(cutoff)
    &&& !is_active(path::joined(dir, e.name), active)
}

/// The orphaned worktrees in `dir`, given its listing.
pub open spec fn orphans(
    dir: Seq<u8>,
    entries: Seq<ListedView>,
    active: Seq<Seq<char>>,
    short_id: Seq<char>,
    cutoff: Moment,
) -> Seq<Seq<u8>> {
    paths_in(
        dir,
        entries.filter(|e: ListedView| is_orphan(e, dir, active, short_id, cutoff)),
    )
}

/// Whether git knows of a worktree at `wt`.
fn is_active_worktree(wt: &[u8], active: &[String]) -> (yes: bool)
    ensures
        yes == is_active(wt@, active.deep_view()),
{
    let wt_str = path::from_utf8_lossy(wt);
    let wanted = text::trim_end_matches(wt_str.as_str(), '/');
    let ghost known = active.deep_view();
    let mut i: usize = 0;
    while i < active.len()
        invariant
            i <= active@.len(),
            known == active.deep_view(),
            wanted@ == text::trim_end_char(path::shown(wt@), '/'),
            forall|j: int|
                0 <= j < i ==> text::trim_end_char(#[trigger] known[j], '/') != wanted@,
        decreases active.len() - i,
    {
        assert(known[i as int] == active@[i as int]@);
        if text::trim_end_matches(active[i].as_str(), '/') == wanted {
            return true;
        }
        i = i + 1;
    }
    false
}

/// The orphaned worktrees in `dir`, given its listing, at most `limit` of them in
/// the order of the listing.
pub fn find_orphans(
    dir: &[u8],
    entries: &[Listed],
    active: &[String],
    short_id: &str,
    cutoff: &Moment,
    limit: usize,
) -> (found: Vec<Vec<u8>>)
    ensures
        path::views(found@) == at_most(
            limit as nat,
            orphans(dir@, entries.deep_view(), active.deep_view(), short_id@, *cutoff),
        ),
{
    let mut found: Vec<Vec<u8>> = Vec::new();
    let mut i: usize = 0;
    let ghost all = entries.deep_view();
    let ghost keep = |e: ListedView| is_orphan(e, dir@, active.deep_view(), short_id@, *cutoff);
    proof {
        lemma_nothing_selected(dir@, all, keep);
    }
    while i < entries.len() && found.len() < limit
        invariant
            i <= entries@.len(),
            found@.len() <= limit,
            all == entries.deep_view(),
            keep == (|e: ListedView|
                is_orphan(e, dir@, active.deep_view(), short_id@, *cutoff)),
            path::views(found@) == paths_in(dir@, all.take(i as int).filter(keep)),
        decreases entries.len() - i,
    {
        let e = &entries[i];
        let ghost so_far = path::views(found@);
        proof {
            lemma_select_next(dir@, all, keep, i as int);
        }
        let name = path::from_utf8_lossy(e.name.as_slice());
        let p: Vec<u8> = path::join(dir, e.name.as_slice());
        if matches!(e.is_dir, Some(true)) && !text::same_text(name.as_str(), short_id) && is_older(
            e,
            cutoff,
        ) && !is_active_worktree(p.as_slice(), active) {
            found.push(p);
            assert(path::views(found@) =~= so_far.push(p@));
        }
        i = i + 1;
    }
    proof {
        lemma_selected(dir@, all, keep, i as int, limit as nat);
    }
    found
}

// ---------------------------------------------------------------------------
// Branches
// ---------------------------------------------------------------------------

/// No worktree in git's porcelain listing has `branch` checked out, going by the
/// text of the listing.
pub open spec fn is_unlisted(branch: Seq<char>, listing: Seq<char>) -> bool {
    !text::has_text(listing, "branch refs/heads/"@ + branch)
}

/// A line of git's list of branches that names an orphaned one.
pub open spec fn orphaned_branch(line: Seq<char>, listing: Seq<char>) -> Option<Seq<char>> {
    let branch = text::trimmed(line);
    if branch.len() > 0 && is_unlisted(branch, listing) {
        Some(branch)
    } else {
        None
    }
}

/// The branches in git's list that no worktree has checked out.
pub open spec fn orphaned_branches(branches: Seq<char>, listing: Seq<char>) -> Seq<Seq<char>> {
    text::lines_of(branches).filter_map(|line: Seq<char>| orphaned_branch(line, listing))
}

/// The branches to delete, given git's list of branches and its porcelain listing
/// of worktrees: those that no worktree has checked out.
pub fn clean_orphaned_wt_branches(branches: &str, listing: &str) -> (orphaned: Vec<String>)
    ensures
        orphaned.deep_view() == orphaned_branches(branches@, listing@),
{
    let lines: Vec<String> = text::lines(branches);
    let mut orphaned: Vec<String> = Vec::new();
    let mut i: usize = 0;
    let ghost all = lines.deep_view();
    let ghost pick = |line: Seq<char>| orphaned_branch(line, listing@);
    assert(orphaned.deep_view() =~= all.take(0).filter_map(pick));
    while i < lines.len()
        invariant
            i <= lines@.len(),
            all == lines.deep_view(),
            pick == (|line: Seq<char>| orphaned_branch(line, listing@)),
            orphaned.deep_view() == all.take(i as int).filter_map(pick),
        decreases lines.len() - i,
    {
        let ghost so_far = orphaned.deep_view();
        proof {
            all.lemma_filter_map_take_succ(pick, i as int);
            assert(all[i as int] == lines@[i as int]@);
        }
        let branch = text::trim(lines[i].as_str());
        let mut search = "branch refs/heads/".to_string();
        search.append(branch.as_str());
        if !branch.as_str().is_empty() && !text::contains(listing, search.as_str()) {
            orphaned.push(branch);
            assert(orphaned.deep_view() =~= so_far.push(branch@));
        }
        i = i + 1;
    }
    assert(all.take(all.len() as int) == all);
    orphaned
}

// ---------------------------------------------------------------------------
// Laws
// ---------------------------------------------------------------------------

/// What is selected comes from an entry that fulfils the condition.
pub proof fn lemma_selected_from(
    dir: Seq<u8>,
    entries: Seq<ListedView>,
    keep: spec_fn(ListedView) -> bool,
    limit: nat,
    p: Seq<u8>,
)
    requires
        at_most(limit, paths_in(dir, entries.filter(keep))).contains(p),
    ensures
        exists|e: ListedView|
            #[trigger] entries.contains(e) && keep(e) && p == path::joined(dir, e.name),
{
    let chosen = at_most(limit, paths_in(dir, entries.filter(keep)));
    let i = choose|i: int| 0 <= i < chosen.len() && chosen[i] == p;
    let e = entries.filter(keep)[i];
    entries.lemma_filter_pred(keep, i);
    assert(entries.filter(keep).contains(e));
    entries.lemma_filter_contains_rev(keep, e);
    assert(p == path::joined(dir, e.name));
}

/// A clean-up removes no more than its limit.
pub proof fn law_removals_are_limited<A>(limit: nat, s: Seq<A>)
    ensures
        at_most(limit, s).len() <= limit,
        s.len() <= limit ==> at_most(limit, s) == s,
        at_most(limit, s).is_prefix_of(s),
{
    if limit < s.len() {
        assert(s.take(limit as int) == s.subrange(0, limit as int));
    } else {
        assert(s == s.subrange(0, s.len() as int));
    }
}

/// What a clean-up removes are the first stale entries in the order of the listing, no
/// more than its limit, and all of them where there are no more than that.
pub proof fn law_first_stale_entries_go(
    dir: Seq<u8>,
    dir_text: Seq<char>,
    name_pattern: Seq<char>,
    entries: Seq<ListedView>,
    cutoff: Moment,
    limit: nat,
)
    ensures
        ({
            let dirs = paths_in(dir, entries.filter(|e: ListedView| is_stale_dir(e, cutoff)));
            let files = paths_in(dir, entries.filter(|e: ListedView| is_stale_file(e, cutoff)));
            let found = paths_in(
                utf8::encode_utf8(dir_text),
                entries.filter(|e: ListedView| is_stale_match(e, name_pattern, cutoff)),
            );
            let gone = stale_matches(dir_text, name_pattern, entries, cutoff, limit);
            &&& stale_dirs(dir, entries, cutoff, limit).len() <= limit
            &&& stale_dirs(dir, entries, cutoff, limit).is_prefix_of(dirs)
            &&& dirs.len() <= limit ==> stale_dirs(dir, entries, cutoff, limit) == dirs
            &&& stale_files(dir, entries, cutoff, limit).len() <= limit
            &&& stale_files(dir, entries, cutoff, limit).is_prefix_of(files)
            &&& files.len() <= limit ==> stale_files(dir, entries, cutoff, limit) == files
            &&& gone.len() <= limit
            &&& gone.is_prefix_of(found)
            &&& found.len() <= limit ==> gone == found
        }),
{
    law_removals_are_limited(
        limit,
        paths_in(dir, entries.filter(|e: ListedView| is_stale_dir(e, cutoff))),
    );
    law_removals_are_limited(
        limit,
        paths_in(dir, entries.filter(|e: ListedView| is_stale_file(e, cutoff))),
    );
    law_removals_are_limited(
        limit,
        paths_in(
            utf8::encode_utf8(dir_text),
            entries.filter(|e: ListedView| is_stale_match(e, name_pattern, cutoff)),
        ),
    );
}

/// A worktree is removed only if it is a directory that was listed, is not the
/// current session's, was last modified before the cutoff, and is none that git
/// knows of.
pub proof fn law_only_orphans_are_removed(
    dir: Seq<u8>,
    entries: Seq<ListedView>,
    active: Seq<Seq<char>>,
    short_id: Seq<char>,
    cutoff: Moment,
    limit: nat,
    removed: Seq<u8>,
)
    requires
        at_most(limit, orphans(dir, entries, active, short_id, cutoff)).contains(removed),
    ensures
        exists|e: ListedView|
            {
                &&& #[trigger] entries.contains(e)
                &&& removed == path::joined(dir, e.name)
                &&& e.is_dir == Some(true)
                &&& path::shown(e.name) != short_id
                &&& e.modified matches Some(m) && before(m, cutoff)
            },
        !is_active(removed, active),
{
    let keep = |e: ListedView| is_orphan(e, dir, active, short_id, cutoff);
    lemma_selected_from(dir, entries, keep, limit, removed);
}

/// What was modified at the cutoff or later is never stale, nor is anything of
/// which that is not known.
pub proof fn law_recent_entries_stay(
    e: ListedView,
    dir: Seq<u8>,
    active: Seq<Seq<char>>,
    short_id: Seq<char>,
    name_pattern: Seq<char>,
    cutoff: Moment,
)
    requires
        e.modified matches Some(m) ==> !before(m, cutoff),
    ensures
        !is_stale_dir(e, cutoff),
        !is_stale_file(e, cutoff),
        !is_stale_match(e, name_pattern, cutoff),
        !is_orphan(e, dir, active, short_id, cutoff),
{
}

/// The directory of process markers is never removed.
pub proof fn law_process_markers_stay(
    dir: Seq<u8>,
    entries: Seq<ListedView>,
    cutoff: Moment,
    limit: nat,
    removed: Seq<u8>,
)
    requires
        stale_dirs(dir, entries, cutoff, limit).contains(removed),
    ensures
        exists|e: ListedView|
            {
                &&& #[trigger] entries.contains(e)
                &&& removed == path::joined(dir, e.name)
                &&& path::shown(e.name) != "by-pid"@
            },
{
    lemma_selected_from(
        dir,
        entries,
        |e: ListedView| is_stale_dir(e, cutoff),
        limit,
        removed,
    );
}

/// A branch that git lists as checked out in a worktree is not deleted, and what is
/// deleted was in git's list of branches.
pub proof fn law_checked_out_branches_stay(
    branches: Seq<char>,
    listing: Seq<char>,
    deleted: Seq<char>,
)
    requires
        orphaned_branches(branches, listing).contains(deleted),
    ensures
        deleted.len() > 0,
        !text::has_text(listing, "branch refs/heads/"@ + deleted),
        exists|line: Seq<char>| #[trigger]
            text::lines_of(branches).contains(line) && text::trimmed(line) == deleted,
{
    let pick = |line: Seq<char>| orphaned_branch(line, listing);
    let lines = text::lines_of(branches);
    lines.lemma_filter_map_contains(pick, deleted);
    let line = choose|line: Seq<char>| #[trigger]
        lines.contains(line) && pick(line) == Some(deleted);
    assert(lines.contains(line) && text::trimmed(line) == deleted);
}

/// Moments are in the order of their nanoseconds since the epoch, and to go back takes that
/// many seconds off.
pub proof fn law_moments(a: Moment, b: Moment, age: int)
    requires
        a.nanos < 1_000_000_000,
        b.nanos < 1_000_000_000,
    ensures
        before(a, b) <==> a.secs * 1_000_000_000 + a.nanos < b.secs * 1_000_000_000 + b.nanos,
        can_go_back(a, age) <==> 0 <= age <= u64::MAX && a.secs - age >= i64::MIN,
        can_go_back(a, age) ==> earlier_by(a, age).secs * 1_000_000_000 + earlier_by(a, age).nanos
            == (a.secs - age) * 1_000_000_000 + a.nanos,
        can_go_back(a, age) ==> earlier_by(a, age).nanos < 1_000_000_000,
{
}

/// Of a sequence goes what comes first: all of it where the limit allows, and as many as the
/// limit where it does not.
pub proof fn law_at_most<A>(limit: nat, s: Seq<A>)
    ensures
        s.len() <= limit ==> at_most(limit, s) == s,
        s.len() > limit ==> at_most(limit, s) == s.take(limit as int),
{
}

/// Selection goes one by one.
proof fn lemma_paths_one_by_one(
    dir: Seq<u8>,
    keep: spec_fn(ListedView) -> bool,
    a: Seq<ListedView>,
    b: Seq<ListedView>,
    e: ListedView,
)
    ensures
        paths_in(dir, Seq::<ListedView>::empty().filter(keep)) == Seq::<Seq<u8>>::empty(),
        paths_in(dir, (a + b).filter(keep)) == paths_in(dir, a.filter(keep)) + paths_in(
            dir,
            b.filter(keep),
        ),
        keep(e) ==> paths_in(dir, seq![e].filter(keep)) == seq![path::joined(dir, e.name)],
        !keep(e) ==> paths_in(dir, seq![e].filter(keep)) == Seq::<Seq<u8>>::empty(),
        paths_in(dir, a.filter(keep)).len() <= a.len(),
{
    Seq::filter_distributes_over_add(a, b, keep);
    glob::lemma_filter_one(e, keep);
    a.lemma_filter_len(keep);
    assert(paths_in(dir, Seq::<ListedView>::empty().filter(keep)) =~= Seq::<Seq<u8>>::empty());
    assert(paths_in(dir, (a + b).filter(keep)) =~= paths_in(dir, a.filter(keep)) + paths_in(
        dir,
        b.filter(keep),
    ));
    assert(keep(e) ==> paths_in(dir, seq![e].filter(keep)) =~= seq![path::joined(dir, e.name)]);
    assert(!keep(e) ==> paths_in(dir, seq![e].filter(keep)) =~= Seq::<Seq<u8>>::empty());
}

/// An entry that is selected is among what goes, where there is room for all or room is
/// left.
proof fn lemma_selected_go(
    dir: Seq<u8>,
    keep: spec_fn(ListedView) -> bool,
    entries: Seq<ListedView>,
    limit: nat,
    e: ListedView,
)
    requires
        entries.contains(e),
        keep(e),
        entries.len() <= limit || at_most(limit, paths_in(dir, entries.filter(keep))).len()
            < limit,
    ensures
        at_most(limit, paths_in(dir, entries.filter(keep))).contains(path::joined(dir, e.name)),
{
    let i = choose|i: int| 0 <= i < entries.len() && entries[i] == e;
    entries.lemma_filter_contains(keep, i);
    entries.lemma_filter_len(keep);
    let kept = entries.filter(keep);
    let j = choose|j: int| 0 <= j < kept.len() && kept[j] == e;
    assert(paths_in(dir, kept)[j] == path::joined(dir, e.name));
    assert(at_most(limit, paths_in(dir, kept)) == paths_in(dir, kept));
}

/// Which directories are stale is decided one by one, in the order of the listing: an entry
/// that is a directory, is not shown as `by-pid` and was last modified before the cutoff is,
/// whatever its name, and no other. Where the limit does not allow for all, the first go.
pub proof fn law_stale_dirs_one_by_one(
    dir: Seq<u8>,
    cutoff: Moment,
    limit: nat,
    a: Seq<ListedView>,
    b: Seq<ListedView>,
    e: ListedView,
)
    ensures
        stale_dirs(dir, Seq::empty(), cutoff, limit) == Seq::<Seq<u8>>::empty(),
        stale_dirs(dir, a + b, cutoff, a.len() + b.len()) == stale_dirs(dir, a, cutoff, a.len())
            + stale_dirs(dir, b, cutoff, b.len()),
        stale_dirs(dir, seq![e], cutoff, 1) == if e.is_dir == Some(true) && path::shown(e.name)
            != "by-pid"@ && (e.modified matches Some(m) && (m.secs < cutoff.secs || (m.secs == cutoff.secs
                && m.nanos < cutoff.nanos))) {
            seq![path::joined(dir, e.name)]
        } else {
            Seq::empty()
        },
        ({
            let all = stale_dirs(dir, a, cutoff, a.len());
            &&& all.len() <= limit ==> stale_dirs(dir, a, cutoff, limit) == all
            &&& all.len() > limit ==> stale_dirs(dir, a, cutoff, limit) == all.take(limit as int)
        }),
{
    let keep = |e: ListedView| is_stale_dir(e, cutoff);
    lemma_paths_one_by_one(dir, keep, a, b, e);
    lemma_paths_one_by_one(dir, keep, b, a, e);
}

/// Every listed entry that is a directory, is not shown as `by-pid` and was last modified
/// before the cutoff is removed, where the limit allows: where there is room for all entries,
/// or room is left.
pub proof fn law_stale_dirs_go(
    dir: Seq<u8>,
    entries: Seq<ListedView>,
    cutoff: Moment,
    limit: nat,
    e: ListedView,
)
    requires
        entries.contains(e),
        e.is_dir == Some(true),
        path::shown(e.name) != "by-pid"@,
        e.modified matches Some(m) && (m.secs < cutoff.secs || (m.secs == cutoff.secs
                && m.nanos < cutoff.nanos)),
        entries.len() <= limit || stale_dirs(dir, entries, cutoff, limit).len() < limit,
    ensures
        stale_dirs(dir, entries, cutoff, limit).contains(path::joined(dir, e.name)),
{
    lemma_selected_go(dir, |e: ListedView| is_stale_dir(e, cutoff), entries, limit, e);
}

/// Which files are stale is decided one by one, in the order of the listing: an entry that
/// is no directory and was last modified before the cutoff is, whatever its name, and no
/// other. Where the limit does not allow for all, the first go.
pub proof fn law_stale_files_one_by_one(
    dir: Seq<u8>,
    cutoff: Moment,
    limit: nat,
    a: Seq<ListedView>,
    b: Seq<ListedView>,
    e: ListedView,
)
    ensures
        stale_files(dir, Seq::empty(), cutoff, limit) == Seq::<Seq<u8>>::empty(),
        stale_files(dir, a + b, cutoff, a.len() + b.len()) == stale_files(dir, a, cutoff, a.len())
            + stale_files(dir, b, cutoff, b.len()),
        stale_files(dir, seq![e], cutoff, 1) == if e.is_dir == Some(false) && (e.modified matches Some(m) && (m.secs < cutoff.secs || (m.secs == cutoff.secs
                && m.nanos < cutoff.nanos))) {
            seq![path::joined(dir, e.name)]
        } else {
            Seq::empty()
        },
        ({
            let all = stale_files(dir, a, cutoff, a.len());
            &&& all.len() <= limit ==> stale_files(dir, a, cutoff, limit) == all
            &&& all.len() > limit ==> stale_files(dir, a, cutoff, limit) == all.take(limit as int)
        }),
{
    let keep = |e: ListedView| is_stale_file(e, cutoff);
    lemma_paths_one_by_one(dir, keep, a, b, e);
    lemma_paths_one_by_one(dir, keep, b, a, e);
}

/// Every listed entry that is no directory and was last modified before the cutoff is
/// removed, where the limit allows.
pub proof fn law_stale_files_go(
    dir: Seq<u8>,
    entries: Seq<ListedView>,
    cutoff: Moment,
    limit: nat,
    e: ListedView,
)
    requires
        entries.contains(e),
        e.is_dir == Some(false),
        e.modified matches Some(m) && (m.secs < cutoff.secs || (m.secs == cutoff.secs
                && m.nanos < cutoff.nanos)),
        entries.len() <= limit || stale_files(dir, entries, cutoff, limit).len() < limit,
    ensures
        stale_files(dir, entries, cutoff, limit).contains(path::joined(dir, e.name)),
{
    lemma_selected_go(dir, |e: ListedView| is_stale_file(e, cutoff), entries, limit, e);
}

/// Which matches are stale is decided one by one, in the order of the listing: an entry
/// whose name matches and that was last modified before the cutoff is, and no other. Where
/// the limit does not allow for all, the first go.
pub proof fn law_stale_matches_one_by_one(
    dir: Seq<char>,
    name_pattern: Seq<char>,
    cutoff: Moment,
    limit: nat,
    a: Seq<ListedView>,
    b: Seq<ListedView>,
    e: ListedView,
)
    ensures
        stale_matches(dir, name_pattern, Seq::empty(), cutoff, limit) == Seq::<Seq<u8>>::empty(),
        stale_matches(dir, name_pattern, a + b, cutoff, a.len() + b.len()) == stale_matches(
            dir,
            name_pattern,
            a,
            cutoff,
            a.len(),
        ) + stale_matches(dir, name_pattern, b, cutoff, b.len()),
        stale_matches(dir, name_pattern, seq![e], cutoff, 1) == if glob::name_matches(
            name_pattern,
            path::shown(e.name),
        ) && (e.modified matches Some(m) && (m.secs < cutoff.secs || (m.secs == cutoff.secs
                && m.nanos < cutoff.nanos))) {
            seq![path::joined(utf8::encode_utf8(dir), e.name)]
        } else {
            Seq::empty()
        },
        ({
            let all = stale_matches(dir, name_pattern, a, cutoff, a.len());
            let some = stale_matches(dir, name_pattern, a, cutoff, limit);
            &&& all.len() <= limit ==> some == all
            &&& all.len() > limit ==> some == all.take(limit as int)
        }),
{
    let keep = |e: ListedView| is_stale_match(e, name_pattern, cutoff);
    lemma_paths_one_by_one(utf8::encode_utf8(dir), keep, a, b, e);
    lemma_paths_one_by_one(utf8::encode_utf8(dir), keep, b, a, e);
}

/// Every listed entry whose name matches and that was last modified before the cutoff is
/// removed, where the limit allows.
pub proof fn law_stale_matches_go(
    dir: Seq<char>,
    name_pattern: Seq<char>,
    entries: Seq<ListedView>,
    cutoff: Moment,
    limit: nat,
    e: ListedView,
)
    requires
        entries.contains(e),
        glob::name_matches(name_pattern, path::shown(e.name)),
        e.modified matches Some(m) && (m.secs < cutoff.secs || (m.secs == cutoff.secs
                && m.nanos < cutoff.nanos)),
        entries.len() <= limit || stale_matches(dir, name_pattern, entries, cutoff, limit).len()
            < limit,
    ensures
        stale_matches(dir, name_pattern, entries, cutoff, limit).contains(
            path::joined(utf8::encode_utf8(dir), e.name),
        ),
{
    lemma_selected_go(
        utf8::encode_utf8(dir),
        |e: ListedView| is_stale_match(e, name_pattern, cutoff),
        entries,
        limit,
        e,
    );
}

/// Which worktrees are orphans is decided one by one, in the order of the listing: an entry
/// that is a directory, is not shown as the session's short identifier, was last modified
/// before the cutoff, and whose path equals no path at whatever position of git's list,
/// slashes at the end aside, and no other.
pub proof fn law_orphans_one_by_one(
    dir: Seq<u8>,
    active: Seq<Seq<char>>,
    short_id: Seq<char>,
    cutoff: Moment,
    a: Seq<ListedView>,
    b: Seq<ListedView>,
    e: ListedView,
)
    ensures
        orphans(dir, Seq::empty(), active, short_id, cutoff) == Seq::<Seq<u8>>::empty(),
        orphans(dir, a + b, active, short_id, cutoff) == orphans(dir, a, active, short_id, cutoff)
            + orphans(dir, b, active, short_id, cutoff),
        orphans(dir, seq![e], active, short_id, cutoff) == if e.is_dir == Some(true)
            && path::shown(e.name) != short_id && (e.modified matches Some(m) && (m.secs < cutoff.secs || (m.secs == cutoff.secs
                && m.nanos < cutoff.nanos))) && (forall|i: int|
            0 <= i < active.len() ==> text::trim_end_char(#[trigger] active[i], '/')
                != text::trim_end_char(path::shown(path::joined(dir, e.name)), '/')) {
            seq![path::joined(dir, e.name)]
        } else {
            Seq::empty()
        },
{
    let keep = |e: ListedView| is_orphan(e, dir, active, short_id, cutoff);
    lemma_paths_one_by_one(dir, keep, a, b, e);
}

/// A directory whose path git lists, at whatever position and with whatever slashes at the
/// end, is not removed.
pub proof fn law_active_worktrees_stay(
    dir: Seq<u8>,
    entries: Seq<ListedView>,
    active: Seq<Seq<char>>,
    short_id: Seq<char>,
    cutoff: Moment,
    limit: nat,
    removed: Seq<u8>,
    i: int,
)
    requires
        at_most(limit, orphans(dir, entries, active, short_id, cutoff)).contains(removed),
        0 <= i < active.len(),
    ensures
        text::trim_end_char(active[i], '/') != text::trim_end_char(path::shown(removed), '/'),
{
    law_only_orphans_are_removed(dir, entries, active, short_id, cutoff, limit, removed);
}

/// Every listed entry that is a directory, is not the session's, was last modified before the
/// cutoff and whose path equals none that git lists is removed, where the limit allows.
pub proof fn law_orphans_go(
    dir: Seq<u8>,
    entries: Seq<ListedView>,
    active: Seq<Seq<char>>,
    short_id: Seq<char>,
    cutoff: Moment,
    limit: nat,
    e: ListedView,
)
    requires
        entries.contains(e),
        e.is_dir == Some(true),
        path::shown(e.name) != short_id,
        e.modified matches Some(m) && (m.secs < cutoff.secs || (m.secs == cutoff.secs
                && m.nanos < cutoff.nanos)),
        forall|i: int|
            0 <= i < active.len() ==> text::trim_end_char(#[trigger] active[i], '/')
                != text::trim_end_char(path::shown(path::joined(dir, e.name)), '/'),
        entries.len() <= limit || at_most(
            limit,
            orphans(dir, entries, active, short_id, cutoff),
        ).len() < limit,
    ensures
        at_most(limit, orphans(dir, entries, active, short_id, cutoff)).contains(
            path::joined(dir, e.name),
        ),
{
    lemma_selected_go(
        dir,
        |e: ListedView| is_orphan(e, dir, active, short_id, cutoff),
        entries,
        limit,
        e,
    );
}

/// A checkout has its worktrees under `.worktrees` in it.
pub proof fn law_worktrees_dir(checkout: Seq<char>)
    requires
        checkout.len() > 0,
        checkout.last() != '/',
    ensures
        worktrees_dir(utf8::encode_utf8(checkout)) == utf8::encode_utf8(
            checkout + "/.worktrees"@,
        ),
{
    reveal_strlit(".worktrees");
    reveal_strlit("/.worktrees");
    path::law_join_text(checkout, ".worktrees"@);
    assert(checkout + seq!['/'] + ".worktrees"@ =~= checkout + "/.worktrees"@);
}

/// Which branches go is decided line by line, in the order of git's list: a line that is a
/// name with white space around it gives that name, whatever its length, unless it is empty
/// or git's listing of worktrees has it as checked out.
pub proof fn law_branches_line_by_line(
    front: Seq<char>,
    branch: Seq<char>,
    back: Seq<char>,
    rest: Seq<char>,
    listing: Seq<char>,
)
    requires
        forall|i: int| 0 <= i < front.len() ==> text::white_space(#[trigger] front[i]),
        forall|i: int| 0 <= i < back.len() ==> text::white_space(#[trigger] back[i]),
        branch.len() > 0 ==> !text::white_space(branch[0]) && !text::white_space(branch.last()),
        !(front + branch + back).contains('\n'),
    ensures
        orphaned_branches(Seq::empty(), listing) == Seq::<Seq<char>>::empty(),
        ({
            let line = front + branch + back;
            let first = if branch.len() > 0 && !text::has_text(
                listing,
                "branch refs/heads/"@ + branch,
            ) {
                seq![branch]
            } else {
                Seq::empty()
            };
            &&& orphaned_branches(line, listing) == first
            &&& orphaned_branches(line + seq!['\n'] + rest, listing) == first + orphaned_branches(
                rest,
                listing,
            )
        }),
{
    let pick = |line: Seq<char>| orphaned_branch(line, listing);
    let line = front + branch + back;
    text::law_trimmed(front, branch, back);
    text::lemma_trimmed_without_cr(line);
    text::lemma_first_line(line, rest);
    text::law_lines(line, rest);
    text::lemma_filter_map_concat(seq![text::without_cr(line)], text::lines_of(rest), pick);
    Seq::lemma_filter_map_singleton(text::without_cr(line), pick);
    Seq::lemma_filter_map_singleton(line, pick);
    if line.len() == 0 {
        assert(line =~= Seq::<char>::empty());
        assert(branch =~= Seq::<char>::empty());
    }
}

/// Every line of git's list of branches whose text, white space aside, is not empty and that
/// git's listing of worktrees does not have as checked out is among the branches that go.
pub proof fn law_orphaned_branches_go(branches: Seq<char>, listing: Seq<char>, line: Seq<char>)
    requires
        text::lines_of(branches).contains(line),
        text::trimmed(line).len() > 0,
        !text::has_text(listing, "branch refs/heads/"@ + text::trimmed(line)),
    ensures
        orphaned_branches(branches, listing).contains(text::trimmed(line)),
{
    let lines = text::lines_of(branches);
    let i = choose|i: int| 0 <= i < lines.len() && lines[i] == line;
    text::lemma_filter_map_has(lines, |line: Seq<char>| orphaned_branch(line, listing), i);
}

} // verus!
