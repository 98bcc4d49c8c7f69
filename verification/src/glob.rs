//! File names that match a pattern with stars.

use vstd::prelude::*;
use vstd::utf8;

use crate::path;
use crate::text;

verus! {

// ---------------------------------------------------------------------------
// Models
// ---------------------------------------------------------------------------

/// The parts stand in `name` one after the other, from `from` on and without
/// overlap.
pub open spec fn in_order(parts: Seq<Seq<char>>, name: Seq<char>, from: int) -> bool
    decreases parts.len(),
{
    parts.len() == 0 || exists|at: int|
        #![trigger text::occurs_at(name, parts[0], at)]
        {
            &&& from <= at
            &&& text::occurs_at(name, parts[0], at)
            &&& in_order(parts.drop_first(), name, at + parts[0].len())
        }
}

/// A name matches the parts that the stars of a pattern leave: they stand in it in
/// order, it starts with the first and ends in the last.
pub open spec fn fits(parts: Seq<Seq<char>>, name: Seq<char>) -> bool {
    &&& in_order(parts, name, 0)
    &&& parts.first().is_prefix_of(name)
    &&& parts.last().is_suffix_of(name)
}

/// A file name matches a pattern.
pub open spec fn name_matches(pattern: Seq<char>, name: Seq<char>) -> bool {
    fits(text::split_on(pattern, '*'), name)
}

/// The directory that a pattern looks in.
pub open spec fn pattern_dir(pattern: Seq<char>) -> Seq<char> {
    match path::parent_of(pattern) {
        Some(dir) => dir,
        None => "."@,
    }
}

/// The part of a pattern that file names are held to.
pub open spec fn pattern_name(pattern: Seq<char>) -> Seq<char> {
    match path::name_of(pattern) {
        Some(name) => name,
        None => Seq::empty(),
    }
}

/// The paths of the entries of `dir` whose names match, in the order of the
/// listing.
pub open spec fn matches_in(
    dir: Seq<char>,
    name_pattern: Seq<char>,
    names: Seq<Seq<u8>>,
) -> Seq<Seq<u8>> {
    names.filter(|n: Seq<u8>| name_matches(name_pattern, path::shown(n))).map_values(
        |n: Seq<u8>| path::joined(utf8::encode_utf8(dir), n),
    )
}

/// The paths that match a pattern, given the listing of the directory that it
/// looks in.
pub open spec fn matches_of(pattern: Seq<char>, names: Seq<Seq<u8>>) -> Seq<Seq<u8>> {
    matches_in(pattern_dir(pattern), pattern_name(pattern), names)
}

// ---------------------------------------------------------------------------
// Searching greedily
// ---------------------------------------------------------------------------

/// What stands in order from a later position on does so from an earlier one.
proof fn lemma_in_order_earlier(parts: Seq<Seq<char>>, name: Seq<char>, from: int, later: int)
    requires
        from <= later,
        in_order(parts, name, later),
    ensures
        in_order(parts, name, from),
{
    if parts.len() > 0 {
        let at = choose|at: int|
            #![trigger text::occurs_at(name, parts[0], at)]
            {
                &&& later <= at
                &&& text::occurs_at(name, parts[0], at)
                &&& in_order(parts.drop_first(), name, at + parts[0].len())
            };
        assert(from <= at);
    }
}

/// The first place for a part is as good as any.
proof fn lemma_first_place(parts: Seq<Seq<char>>, name: Seq<char>, from: int, first: int)
    requires
        parts.len() > 0,
        from <= first,
        text::occurs_at(name, parts[0], first),
        forall|j: int| from <= j < first ==> !text::occurs_at(name, parts[0], j),
    ensures
        in_order(parts, name, from) == in_order(
            parts.drop_first(),
            name,
            first + parts[0].len(),
        ),
{
    if in_order(parts, name, from) {
        let at = choose|at: int|
            #![trigger text::occurs_at(name, parts[0], at)]
            {
                &&& from <= at
                &&& text::occurs_at(name, parts[0], at)
                &&& in_order(parts.drop_first(), name, at + parts[0].len())
            };
        assert(first <= at);
        lemma_in_order_earlier(
            parts.drop_first(),
            name,
            first + parts[0].len(),
            at + parts[0].len(),
        );
    }
}

/// Whether a name matches the parts that the stars of a pattern leave.
fn fits_parts(parts: &Vec<Vec<char>>, name: &Vec<char>) -> (ok: bool)
    requires
        parts@.len() > 0,
    ensures
        ok == fits(parts.deep_view(), name@),
{
    let ghost all = parts.deep_view();
    let mut pos: usize = 0;
    let mut i: usize = 0;
    assert(all.skip(0) == all);
    while i < parts.len()
        invariant
            all == parts.deep_view(),
            i <= parts@.len(),
            pos <= name@.len(),
            in_order(all, name@, 0) == in_order(all.skip(i as int), name@, pos as int),
        decreases parts.len() - i,
    {
        let ghost rest = all.skip(i as int);
        assert(rest[0] =~= parts@[i as int]@);
        assert(rest.drop_first() == all.skip(i + 1));
        match text::find_from(name, &parts[i], pos) {
            Some(at) => {
                proof {
                    lemma_first_place(rest, name@, pos as int, at as int);
                    assert(at + parts@[i as int].len() <= name.len());
                }
                pos = at + parts[i].len();
            },
            None => {
                assert(!in_order(rest, name@, pos as int));
                return false;
            },
        }
        i = i + 1;
    }
    assert(in_order(all.skip(i as int), name@, pos as int));
    let last: usize = parts.len() - 1;
    assert(all[0] =~= parts@[0]@);
    assert(all.last() =~= parts@[last as int]@);
    if !text::is_at(name, &parts[0], 0) {
        assert(!all[0].is_prefix_of(name@)) by {
            if all[0].is_prefix_of(name@) {
                assert(text::occurs_at(name@, all[0], 0));
            }
        }
        return false;
    }
    assert(all[0].is_prefix_of(name@));
    let ends = parts[last].len() <= name.len() && text::is_at(
        name,
        &parts[last],
        name.len() - parts[last].len(),
    );
    assert(ends == all.last().is_suffix_of(name@));
    ends
}

/// Whether a file name matches a pattern.
pub fn matches_name(pattern: &str, name: &str) -> (ok: bool)
    ensures
        ok == name_matches(pattern@, name@),
{
    let parts: Vec<Vec<char>> = text::split(pattern, '*');
    assert(parts.deep_view().len() == parts@.len());
    fits_parts(&parts, &text::to_chars(name))
}

// ---------------------------------------------------------------------------
// Listings
// ---------------------------------------------------------------------------

/// The paths of the entries of `dir` whose names match, in the order of the
/// listing.
pub fn glob_in(dir: &str, name_pattern: &str, names: &[Vec<u8>]) -> (found: Vec<Vec<u8>>)
    ensures
        path::views(found@) == matches_in(dir@, name_pattern@, path::views(names@)),
{
    let mut found: Vec<Vec<u8>> = Vec::new();
    let mut i: usize = 0;
    let ghost all = path::views(names@);
    let ghost keep = |n: Seq<u8>| name_matches(name_pattern@, path::shown(n));
    let ghost place = |n: Seq<u8>| path::joined(utf8::encode_utf8(dir@), n);
    proof {
        reveal(Seq::filter);
        assert(path::views(found@) =~= all.take(0).filter(keep).map_values(place));
    }
    while i < names.len()
        invariant
            i <= names@.len(),
            all == path::views(names@),
            keep == (|n: Seq<u8>| name_matches(name_pattern@, path::shown(n))),
            place == (|n: Seq<u8>| path::joined(utf8::encode_utf8(dir@), n)),
            path::views(found@) == all.take(i as int).filter(keep).map_values(place),
        decreases names.len() - i,
    {
        let ghost before = path::views(found@);
        let name = path::from_utf8_lossy(names[i].as_slice());
        proof {
            assert(all.take(i + 1) == all.take(i as int).push(all[i as int]));
            all.take(i as int).lemma_filter_push(all[i as int], keep);
        }
        if matches_name(name_pattern, name.as_str()) {
            let p: Vec<u8> = path::join(dir.as_bytes(), names[i].as_slice());
            found.push(p);
            assert(path::views(found@) =~= before.push(p@));
            assert(all.take(i as int).filter(keep).push(all[i as int]).map_values(place)
                =~= before.push(place(all[i as int])));
        }
        i = i + 1;
    }
    assert(all.take(all.len() as int) == all);
    found
}

/// The directory that a pattern looks in.
pub fn glob_dir(pattern: &str) -> (dir: Vec<u8>)
    ensures
        dir@ == utf8::encode_utf8(pattern_dir(pattern@)),
{
    match path::parent(pattern) {
        Some(dir) => path::bytes_of(dir.as_str()),
        None => path::bytes_of("."),
    }
}

/// The paths that match a pattern, given the listing of [`glob_dir`], or none where
/// that directory cannot be read.
/// Simple glob: split on * and match.
pub fn glob_matches(pattern: &str, listing: Option<&[Vec<u8>]>) -> (found: Result<
    Vec<Vec<u8>>,
    (),
>)
    ensures
        match found {
            Ok(paths) => {
                &&& listing is Some
                &&& path::views(paths@) == matches_of(pattern@, path::views(listing.unwrap()@))
            },
            Err(()) => listing is None,
        },
{
    let dir = match path::parent(pattern) {
        Some(dir) => dir,
        None => ".".to_string(),
    };
    let name_pattern = match path::file_name(pattern) {
        Some(name) => name,
        None => String::new(),
    };
    match listing {
        Some(names) => Ok(glob_in(dir.as_str(), name_pattern.as_str(), names)),
        None => Err(()),
    }
}

// ---------------------------------------------------------------------------
// Laws
// ---------------------------------------------------------------------------

/// The usual meaning of a pattern: a star stands for any characters, every other
/// character for itself.
pub open spec fn star_match(pattern: Seq<char>, name: Seq<char>) -> bool
    decreases pattern.len(), name.len(),
{
    if pattern.len() == 0 {
        name.len() == 0
    } else if pattern[0] == '*' {
        ||| star_match(pattern.drop_first(), name)
        ||| name.len() > 0 && star_match(pattern, name.drop_first())
    } else {
        name.len() > 0 && name[0] == pattern[0] && star_match(
            pattern.drop_first(),
            name.drop_first(),
        )
    }
}

/// Parts after a star: they stand in `name` in order, the last one at its end.
spec fn ends_in_parts(parts: Seq<Seq<char>>, name: Seq<char>) -> bool
    decreases parts.len(),
{
    if parts.len() <= 1 {
        parts[0].is_suffix_of(name)
    } else {
        exists|at: int|
            #![trigger text::occurs_at(name, parts[0], at)]
            text::occurs_at(name, parts[0], at) && ends_in_parts(
                parts.drop_first(),
                name.skip(at + parts[0].len()),
            )
    }
}

/// After a star the pattern may start anywhere.
proof fn lemma_star(pattern: Seq<char>, name: Seq<char>)
    requires
        pattern.len() > 0,
        pattern[0] == '*',
    ensures
        star_match(pattern, name) == exists|k: int|
            0 <= k <= name.len() && #[trigger] star_match(pattern.drop_first(), name.skip(k)),
    decreases name.len(),
{
    let rest = pattern.drop_first();
    assert(name.skip(0) == name);
    assert(star_match(rest, name.skip(0)) == star_match(rest, name));
    if name.len() > 0 {
        let shorter = name.drop_first();
        lemma_star(pattern, shorter);
        if star_match(pattern, name) && !star_match(rest, name) {
            let k = choose|k: int|
                0 <= k <= shorter.len() && #[trigger] star_match(rest, shorter.skip(k));
            assert(shorter.skip(k) == name.skip(k + 1));
            assert(star_match(rest, name.skip(k + 1)));
        }
        if exists|k: int| 0 <= k <= name.len() && #[trigger] star_match(rest, name.skip(k)) {
            let k = choose|k: int|
                0 <= k <= name.len() && #[trigger] star_match(rest, name.skip(k));
            if k > 0 {
                assert(shorter.skip(k - 1) == name.skip(k));
                assert(star_match(rest, shorter.skip(k - 1)));
            }
        }
    }
}

/// What comes before the first star stands for itself.
proof fn lemma_literal(literal: Seq<char>, rest: Seq<char>, name: Seq<char>)
    requires
        forall|i: int| 0 <= i < literal.len() ==> literal[i] != '*',
    ensures
        star_match(literal + rest, name) == (literal.is_prefix_of(name) && star_match(
            rest,
            name.skip(literal.len() as int),
        )),
    decreases literal.len(),
{
    if literal.len() == 0 {
        assert(literal + rest == rest);
        assert(name.skip(0) == name);
    } else {
        let tail = literal.drop_first();
        assert((literal + rest).drop_first() == tail + rest);
        if name.len() > 0 && name[0] == literal[0] {
            lemma_literal(tail, rest, name.drop_first());
            if literal.len() <= name.len() {
                assert(name.drop_first().skip(tail.len() as int) == name.skip(
                    literal.len() as int,
                ));
            }
            assert(tail.is_prefix_of(name.drop_first()) == literal.is_prefix_of(name)) by {
                if tail.is_prefix_of(name.drop_first()) {
                    assert(literal =~= name.subrange(0, literal.len() as int)) by {
                        assert(tail == name.drop_first().subrange(0, tail.len() as int));
                        assert forall|i: int| 0 <= i < literal.len() implies literal[i]
                            == name[i] by {
                            if i > 0 {
                                assert(tail[i - 1] == name.drop_first()[i - 1]);
                            }
                        }
                    }
                }
                if literal.is_prefix_of(name) {
                    assert(tail =~= name.drop_first().subrange(0, tail.len() as int));
                }
            }
        }
    }
}

/// The parts of a pattern with a star in it: what comes before, and the parts of
/// what comes after.
proof fn lemma_split(pattern: Seq<char>)
    ensures
        ({
            let i = text::first_index(pattern, '*');
            let parts = text::split_on(pattern, '*');
            &&& parts.len() > 0
            &&& forall|j: int| 0 <= j < parts[0].len() ==> parts[0][j] != '*'
            &&& if pattern.contains('*') {
                &&& 0 <= i < pattern.len()
                &&& pattern[i] == '*'
                &&& parts[0] == pattern.take(i)
                &&& parts.drop_first() == text::split_on(pattern.skip(i + 1), '*')
                &&& parts.len() > 1
                &&& pattern == parts[0] + pattern.skip(i)
                &&& pattern.skip(i).drop_first() == pattern.skip(i + 1)
            } else {
                parts == seq![pattern]
            }
        }),
    decreases pattern.len(),
{
    text::lemma_first_index(pattern, '*');
    let i = text::first_index(pattern, '*');
    if i < pattern.len() {
        assert(pattern[i] == '*');
        lemma_split(pattern.skip(i + 1));
        let parts = text::split_on(pattern, '*');
        assert(parts.drop_first() =~= text::split_on(pattern.skip(i + 1), '*'));
        assert(pattern =~= parts[0] + pattern.skip(i));
        assert(pattern.skip(i).drop_first() =~= pattern.skip(i + 1));
    }
}

/// A pattern that may start anywhere is the parts of it, the last one at the end.
proof fn lemma_anywhere(pattern: Seq<char>, name: Seq<char>)
    ensures
        (exists|k: int| 0 <= k <= name.len() && #[trigger] star_match(pattern, name.skip(k)))
            == ends_in_parts(text::split_on(pattern, '*'), name),
    decreases pattern.len(),
{
    lemma_split(pattern);
    let parts = text::split_on(pattern, '*');
    let first = parts[0];
    if !pattern.contains('*') {
        assert forall|k: int| 0 <= k <= name.len() implies #[trigger] star_match(
            pattern,
            name.skip(k),
        ) == (name.skip(k) == pattern) by {
            lemma_literal(pattern, Seq::empty(), name.skip(k));
            assert(pattern + Seq::<char>::empty() == pattern);
            if pattern.is_prefix_of(name.skip(k)) && name.skip(k).skip(
                pattern.len() as int,
            ).len() == 0 {
                assert(pattern =~= name.skip(k));
            }
            if name.skip(k) == pattern {
                assert(pattern.is_prefix_of(name.skip(k)));
            }
        }
        if pattern.is_suffix_of(name) {
            let k = name.len() - pattern.len();
            assert(name.skip(k) =~= pattern);
            assert(star_match(pattern, name.skip(k)));
        }
        if exists|k: int| 0 <= k <= name.len() && #[trigger] star_match(pattern, name.skip(k)) {
            let k = choose|k: int|
                0 <= k <= name.len() && #[trigger] star_match(pattern, name.skip(k));
            assert(name.skip(k) == pattern);
            assert(k == name.len() - pattern.len());
            assert(pattern.is_suffix_of(name));
        }
    } else {
        let i = text::first_index(pattern, '*');
        let after = pattern.skip(i + 1);
        // Matching from k on is: the first part stands at k, and the rest is found later.
        assert forall|k: int| 0 <= k <= name.len() implies #[trigger] star_match(
            pattern,
            name.skip(k),
        ) == (text::occurs_at(name, first, k) && ends_in_parts(
            parts.drop_first(),
            name.skip(k + first.len()),
        )) by {
            let u = name.skip(k);
            lemma_literal(first, pattern.skip(i), u);
            assert(first.is_prefix_of(u) == text::occurs_at(name, first, k)) by {
                if first.is_prefix_of(u) {
                    assert(name.subrange(k, k + first.len()) =~= u.subrange(
                        0,
                        first.len() as int,
                    ));
                }
                if text::occurs_at(name, first, k) {
                    assert(u.subrange(0, first.len() as int) =~= first);
                }
            }
            if first.is_prefix_of(u) {
                assert(u.skip(first.len() as int) == name.skip(k + first.len()));
                lemma_star(pattern.skip(i), name.skip(k + first.len()));
                lemma_anywhere(after, name.skip(k + first.len()));
            }
        }
        if exists|k: int| 0 <= k <= name.len() && #[trigger] star_match(pattern, name.skip(k)) {
            let k = choose|k: int|
                0 <= k <= name.len() && #[trigger] star_match(pattern, name.skip(k));
            assert(text::occurs_at(name, first, k));
        }
        if ends_in_parts(parts, name) {
            let k = choose|k: int|
                #![trigger text::occurs_at(name, first, k)]
                text::occurs_at(name, first, k) && ends_in_parts(
                    parts.drop_first(),
                    name.skip(k + first.len()),
                );
            assert(star_match(pattern, name.skip(k)));
        }
    }
}

/// Standing in order from `from` on, with the last part at the end, is the same as
/// ending in the parts there.
proof fn lemma_in_order_to_end(parts: Seq<Seq<char>>, name: Seq<char>, from: int)
    requires
        parts.len() > 0,
        0 <= from <= name.len(),
    ensures
        (in_order(parts, name, from) && parts.last().is_suffix_of(name)) == ends_in_parts(
            parts,
            name.skip(from),
        ),
    decreases parts.len(),
{
    let first = parts[0];
    let rest = parts.drop_first();
    let tail = name.skip(from);
    assert forall|at: int| from <= at implies text::occurs_at(name, first, at)
        == #[trigger] text::occurs_at(tail, first, at - from) by {
        if at + first.len() <= name.len() {
            assert(name.subrange(at, at + first.len()) =~= tail.subrange(
                at - from,
                at - from + first.len(),
            ));
        }
    }
    if parts.len() == 1 {
        assert(rest.len() == 0);
        if in_order(parts, name, from) && first.is_suffix_of(name) {
            let at = choose|at: int|
                #![trigger text::occurs_at(name, parts[0], at)]
                {
                    &&& from <= at
                    &&& text::occurs_at(name, parts[0], at)
                    &&& in_order(parts.drop_first(), name, at + parts[0].len())
                };
            assert(first.len() <= tail.len());
            assert(tail.subrange(tail.len() - first.len(), tail.len() as int) =~= name.subrange(
                name.len() - first.len(),
                name.len() as int,
            ));
        }
        if first.is_suffix_of(tail) {
            let at = name.len() - first.len();
            assert(name.subrange(at, name.len() as int) =~= tail.subrange(
                tail.len() - first.len(),
                tail.len() as int,
            ));
            assert(text::occurs_at(name, first, at));
            assert(in_order(rest, name, at + first.len()));
        }
    } else {
        assert(rest.last() == parts.last());
        if in_order(parts, name, from) && parts.last().is_suffix_of(name) {
            let at = choose|at: int|
                #![trigger text::occurs_at(name, parts[0], at)]
                {
                    &&& from <= at
                    &&& text::occurs_at(name, parts[0], at)
                    &&& in_order(parts.drop_first(), name, at + parts[0].len())
                };
            lemma_in_order_to_end(rest, name, at + first.len());
            assert(tail.skip(at - from + first.len()) == name.skip(at + first.len()));
            assert(text::occurs_at(tail, first, at - from));
        }
        if ends_in_parts(parts, tail) {
            let k = choose|k: int|
                #![trigger text::occurs_at(tail, parts[0], k)]
                text::occurs_at(tail, parts[0], k) && ends_in_parts(
                    parts.drop_first(),
                    tail.skip(k + parts[0].len()),
                );
            let at = k + from;
            assert(tail.skip(k + first.len()) == name.skip(at + first.len()));
            assert(text::occurs_at(tail, first, at - from));
            assert(text::occurs_at(name, first, at));
            lemma_in_order_to_end(rest, name, at + first.len());
        }
    }
}

/// A pattern with a star in it matches exactly what such patterns usually match.
pub proof fn law_star_patterns(pattern: Seq<char>, name: Seq<char>)
    requires
        pattern.contains('*'),
    ensures
        name_matches(pattern, name) == star_match(pattern, name),
{
    lemma_split(pattern);
    let parts = text::split_on(pattern, '*');
    let i = text::first_index(pattern, '*');
    let first = parts[0];
    let rest = parts.drop_first();
    lemma_literal(first, pattern.skip(i), name);
    assert(rest.last() == parts.last());
    if first.is_prefix_of(name) {
        let tail = name.skip(first.len() as int);
        lemma_star(pattern.skip(i), tail);
        lemma_anywhere(pattern.skip(i + 1), tail);
        assert(text::occurs_at(name, first, 0));
        lemma_first_place(parts, name, 0, 0);
        lemma_in_order_to_end(rest, name, first.len() as int);
    }
}

/// A pattern without a star matches the names that both start with it and end in it.
pub proof fn law_plain_patterns(pattern: Seq<char>, name: Seq<char>)
    requires
        !pattern.contains('*'),
    ensures
        name_matches(pattern, name) == (pattern.is_prefix_of(name) && pattern.is_suffix_of(name)),
{
    lemma_split(pattern);
    let parts = text::split_on(pattern, '*');
    if pattern.is_prefix_of(name) {
        assert(text::occurs_at(name, parts[0], 0));
        assert(in_order(parts.drop_first(), name, pattern.len() as int));
    }
}

/// A pattern of a prefix, one star and a suffix matches the names that start with
/// the one, end in the other and have room for both.
pub proof fn law_prefix_and_suffix(prefix: Seq<char>, suffix: Seq<char>, name: Seq<char>)
    requires
        !prefix.contains('*'),
        !suffix.contains('*'),
    ensures
        name_matches(prefix + seq!['*'] + suffix, name) == (prefix.is_prefix_of(name)
            && suffix.is_suffix_of(name) && prefix.len() + suffix.len() <= name.len()),
{
    let pattern = prefix + seq!['*'] + suffix;
    let n = prefix.len() as int;
    assert(pattern[n] == '*');
    assert(pattern.contains('*'));
    assert forall|j: int| 0 <= j < n implies pattern[j] != '*' by {
        assert(pattern[j] == prefix[j]);
    }
    text::lemma_first_index_is(pattern, '*', n);
    assert(pattern.take(n) == prefix);
    assert(pattern.skip(n + 1) == suffix);
    lemma_split(suffix);
    let parts = text::split_on(pattern, '*');
    assert(parts == seq![prefix, suffix]);
    assert(parts.drop_first() == seq![suffix]);
    if prefix.is_prefix_of(name) {
        assert(text::occurs_at(name, prefix, 0));
        lemma_first_place(parts, name, 0, 0);
        lemma_in_order_to_end(seq![suffix], name, n);
        let tail = name.skip(n);
        if suffix.is_suffix_of(tail) {
            assert(tail.subrange(tail.len() - suffix.len(), tail.len() as int) =~= name.subrange(
                name.len() - suffix.len(),
                name.len() as int,
            ));
        }
        if suffix.is_suffix_of(name) && prefix.len() + suffix.len() <= name.len() {
            assert(tail.subrange(tail.len() - suffix.len(), tail.len() as int) =~= name.subrange(
                name.len() - suffix.len(),
                name.len() as int,
            ));
        }
    }
}

/// Before a pattern that has a star, a literal and another star ask for the literal at the
/// start and the pattern anywhere after it.
pub proof fn law_star_before_pattern(literal: Seq<char>, pattern: Seq<char>, name: Seq<char>)
    requires
        !literal.contains('*'),
        pattern.contains('*'),
    ensures
        name_matches(literal + seq!['*'] + pattern, name) <==> literal.is_prefix_of(name)
            && exists|i: int|
            literal.len() <= i <= name.len() && name_matches(pattern, #[trigger] name.skip(i)),
{
    let rest = seq!['*'] + pattern;
    let whole = literal + seq!['*'] + pattern;
    let n = literal.len() as int;
    assert(whole =~= literal + rest);
    assert(whole[n] == '*');
    assert forall|i: int| 0 <= i < literal.len() implies literal[i] != '*' by {
        assert(literal.contains(literal[i]));
    }
    law_star_patterns(whole, name);
    lemma_literal(literal, rest, name);
    if literal.is_prefix_of(name) {
        let tail = name.skip(n);
        lemma_star(rest, tail);
        assert(rest.drop_first() =~= pattern);
        assert forall|k: int| 0 <= k <= tail.len() implies tail.skip(k) == #[trigger] name.skip(
            n + k,
        ) by {
            assert(tail.skip(k) =~= name.skip(n + k));
        }
        if exists|k: int| 0 <= k <= tail.len() && #[trigger] star_match(pattern, tail.skip(k)) {
            let k = choose|k: int|
                0 <= k <= tail.len() && #[trigger] star_match(pattern, tail.skip(k));
            assert(tail.skip(k) == name.skip(n + k));
            law_star_patterns(pattern, name.skip(n + k));
        }
        if exists|i: int|
            literal.len() <= i <= name.len() && name_matches(pattern, #[trigger] name.skip(i)) {
            let i = choose|i: int|
                literal.len() <= i <= name.len() && name_matches(pattern, #[trigger] name.skip(i));
            law_star_patterns(pattern, name.skip(i));
            assert(name.skip(n + (i - n)) == tail.skip(i - n));
            assert(star_match(pattern, tail.skip(i - n)));
        }
    }
}

/// Of one element a filter keeps it or nothing, and of none it keeps none.
pub proof fn lemma_filter_one<A>(x: A, keep: spec_fn(A) -> bool)
    ensures
        Seq::<A>::empty().filter(keep) == Seq::<A>::empty(),
        keep(x) ==> seq![x].filter(keep) == seq![x],
        !keep(x) ==> seq![x].filter(keep) == Seq::<A>::empty(),
{
    reveal(Seq::filter);
    let none = Seq::<A>::empty();
    assert(none.filter(keep) =~= none);
    none.lemma_filter_push(x, keep);
    assert(none.push(x) =~= seq![x]);
}

/// Which entries of a directory match is decided one by one, and their order is kept: of
/// one name that is its path or nothing, and of two listings after each other what matches
/// in the one and then in the other.
pub proof fn law_matches_one_by_one(
    dir: Seq<char>,
    name_pattern: Seq<char>,
    a: Seq<Seq<u8>>,
    b: Seq<Seq<u8>>,
    name: Seq<u8>,
)
    ensures
        matches_in(dir, name_pattern, Seq::empty()) == Seq::<Seq<u8>>::empty(),
        matches_in(dir, name_pattern, a + b) == matches_in(dir, name_pattern, a) + matches_in(
            dir,
            name_pattern,
            b,
        ),
        name_matches(name_pattern, path::shown(name)) ==> matches_in(dir, name_pattern, seq![name])
            == seq![path::joined(utf8::encode_utf8(dir), name)],
        !name_matches(name_pattern, path::shown(name)) ==> matches_in(
            dir,
            name_pattern,
            seq![name],
        ) == Seq::<Seq<u8>>::empty(),
{
    reveal(Seq::filter);
    let keep = |n: Seq<u8>| name_matches(name_pattern, path::shown(n));
    Seq::filter_distributes_over_add(a, b, keep);
    assert(matches_in(dir, name_pattern, a + b) =~= matches_in(dir, name_pattern, a) + matches_in(
        dir,
        name_pattern,
        b,
    ));
    lemma_filter_one(name, keep);
    assert(name_matches(name_pattern, path::shown(name)) ==> matches_in(
        dir,
        name_pattern,
        seq![name],
    ) =~= seq![path::joined(utf8::encode_utf8(dir), name)]);
    assert(!name_matches(name_pattern, path::shown(name)) ==> matches_in(
        dir,
        name_pattern,
        seq![name],
    ) =~= Seq::<Seq<u8>>::empty());
    assert(matches_in(dir, name_pattern, Seq::empty()) =~= Seq::<Seq<u8>>::empty());
}

/// A pattern looks in the directory that it is written in for the name that it ends in.
pub proof fn law_pattern_parts(dir: Seq<char>, name_pattern: Seq<char>, names: Seq<Seq<u8>>)
    requires
        dir.len() > 0,
        path::is_plain(path::last_part(dir)),
        path::is_plain(name_pattern),
        !name_pattern.contains('/'),
    ensures
        pattern_dir(dir + seq!['/'] + name_pattern) == dir,
        pattern_name(dir + seq!['/'] + name_pattern) == name_pattern,
        matches_of(dir + seq!['/'] + name_pattern, names) == matches_in(dir, name_pattern, names),
{
    path::lemma_ends_in_part(dir);
    path::law_entry_of_directory(dir, name_pattern);
    assert(path::entry_text(dir, name_pattern) =~= dir + seq!['/'] + name_pattern);
}

} // verus!
