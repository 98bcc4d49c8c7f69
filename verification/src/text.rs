//! Character sequences: searching, splitting, trimming and assembling text.

use vstd::prelude::*;

verus! {

// ---------------------------------------------------------------------------
// Models
// ---------------------------------------------------------------------------

/// `needle` stands in `hay` at position `at`.
pub open spec fn occurs_at(hay: Seq<char>, needle: Seq<char>, at: int) -> bool {
    &&& 0 <= at
    &&& at + needle.len() <= hay.len()
    &&& hay.subrange(at, at + needle.len()) == needle
}

/// `needle` stands somewhere in `hay`.
pub open spec fn has_text(hay: Seq<char>, needle: Seq<char>) -> bool {
    exists|at: int| occurs_at(hay, needle, at)
}

/// The position of the first `c`, or the length where there is none.
pub open spec fn first_index(s: Seq<char>, c: char) -> int
    decreases s.len(),
{
    if s.len() == 0 || s[0] == c {
        0
    } else {
        1 + first_index(s.drop_first(), c)
    }
}

/// The pieces between the occurrences of `sep`; always at least one.
pub open spec fn split_on(s: Seq<char>, sep: char) -> Seq<Seq<char>>
    decreases s.len(),
{
    let i = first_index(s, sep);
    if 0 <= i < s.len() {
        seq![s.take(i)] + split_on(s.skip(i + 1), sep)
    } else {
        seq![s]
    }
}

/// A line without the carriage return that ends it.
pub open spec fn without_cr(line: Seq<char>) -> Seq<char> {
    if line.len() > 0 && line.last() == '\r' {
        line.drop_last()
    } else {
        line
    }
}

/// The lines of a text. A line ends in a line feed, or in a carriage return and
/// a line feed; the last one need not end in either.
pub open spec fn lines_of(s: Seq<char>) -> Seq<Seq<char>>
    decreases s.len(),
{
    let i = first_index(s, '\n');
    if s.len() == 0 {
        Seq::empty()
    } else if 0 <= i < s.len() {
        seq![without_cr(s.take(i))] + lines_of(s.skip(i + 1))
    } else {
        seq![s]
    }
}

/// The characters that have the Unicode property `White_Space`.
pub open spec fn white_space(c: char) -> bool {
    ||| '\u{9}' <= c <= '\u{d}'
    ||| c == ' '
    ||| c == '\u{85}'
    ||| c == '\u{a0}'
    ||| c == '\u{1680}'
    ||| '\u{2000}' <= c <= '\u{200a}'
    ||| c == '\u{2028}'
    ||| c == '\u{2029}'
    ||| c == '\u{202f}'
    ||| c == '\u{205f}'
    ||| c == '\u{3000}'
}

/// `s` without the white space that it starts with.
pub open spec fn trim_front(s: Seq<char>) -> Seq<char>
    decreases s.len(),
{
    if s.len() > 0 && white_space(s[0]) {
        trim_front(s.drop_first())
    } else {
        s
    }
}

/// `s` without the white space that it ends in.
pub open spec fn trim_back(s: Seq<char>) -> Seq<char>
    decreases s.len(),
{
    if s.len() > 0 && white_space(s.last()) {
        trim_back(s.drop_last())
    } else {
        s
    }
}

/// `s` without the white space at both ends.
pub open spec fn trimmed(s: Seq<char>) -> Seq<char> {
    trim_back(trim_front(s))
}

/// `s` without the run of `c` that it ends in.
pub open spec fn trim_end_char(s: Seq<char>, c: char) -> Seq<char>
    decreases s.len(),
{
    if s.len() > 0 && s.last() == c {
        trim_end_char(s.drop_last(), c)
    } else {
        s
    }
}

/// What follows `prefix` in `s`, where `s` starts with it.
pub open spec fn after_prefix(s: Seq<char>, prefix: Seq<char>) -> Option<Seq<char>> {
    if prefix.is_prefix_of(s) {
        Some(s.skip(prefix.len() as int))
    } else {
        None
    }
}

/// The parts with `sep` between each two neighbours.
pub open spec fn joined_with(parts: Seq<Seq<char>>, sep: Seq<char>) -> Seq<char>
    decreases parts.len(),
{
    if parts.len() == 0 {
        Seq::empty()
    } else if parts.len() == 1 {
        parts[0]
    } else {
        joined_with(parts.drop_last(), sep) + sep + parts.last()
    }
}

/// The character for a decimal digit.
pub open spec fn digit(d: nat) -> char {
    (('0' as nat) + d) as char
}

/// The last `width` decimal digits of `n`, most significant first.
pub open spec fn last_digits(n: nat, width: nat) -> Seq<char>
    decreases width,
{
    if width == 0 {
        Seq::empty()
    } else {
        last_digits(n / 10, (width - 1) as nat).push(digit(n % 10))
    }
}

/// How many decimal digits `n` has.
pub open spec fn digit_count(n: nat) -> nat
    decreases n,
{
    if n < 10 {
        1
    } else {
        1 + digit_count(n / 10)
    }
}

/// `n` in decimal, filled up with leading zeros to at least `width` digits.
pub open spec fn padded(n: nat, width: nat) -> Seq<char> {
    last_digits(
        n,
        if digit_count(n) > width {
            digit_count(n)
        } else {
            width
        },
    )
}

/// `a` comes before `b` in the order of strings: the first character in which they
/// differ decides, and what ends first comes first. For UTF-8 that is the order of the
/// bytes.
pub open spec fn precedes(a: Seq<char>, b: Seq<char>) -> bool
    decreases a.len(),
{
    if b.len() == 0 {
        false
    } else if a.len() == 0 {
        true
    } else if a[0] != b[0] {
        (a[0] as int) < (b[0] as int)
    } else {
        precedes(a.drop_first(), b.drop_first())
    }
}

/// The power of ten with `width` zeros.
pub open spec fn ten_to(width: nat) -> nat
    decreases width,
{
    if width == 0 {
        1
    } else {
        10 * ten_to((width - 1) as nat)
    }
}

// ---------------------------------------------------------------------------
// Facts about the models
// ---------------------------------------------------------------------------

/// No text comes before itself.
pub proof fn lemma_precedes_irreflexive(s: Seq<char>)
    ensures
        !precedes(s, s),
    decreases s.len(),
{
    if s.len() > 0 {
        lemma_precedes_irreflexive(s.drop_first());
    }
}

/// Heads of the same length that differ decide.
pub proof fn lemma_precedes_head(a: Seq<char>, b: Seq<char>, c: Seq<char>, d: Seq<char>)
    requires
        a.len() == b.len(),
        precedes(a, b),
    ensures
        precedes(a + c, b + d),
    decreases a.len(),
{
    if a.len() > 0 && a[0] == b[0] {
        lemma_precedes_head(a.drop_first(), b.drop_first(), c, d);
        assert((a + c).drop_first() =~= a.drop_first() + c);
        assert((b + d).drop_first() =~= b.drop_first() + d);
    }
}

/// After the same head the tails decide.
pub proof fn lemma_precedes_tail(head: Seq<char>, a: Seq<char>, b: Seq<char>)
    requires
        precedes(a, b),
    ensures
        precedes(head + a, head + b),
    decreases head.len(),
{
    if head.len() == 0 {
        assert(head + a =~= a);
        assert(head + b =~= b);
    } else {
        lemma_precedes_tail(head.drop_first(), a, b);
        assert((head + a).drop_first() =~= head.drop_first() + a);
        assert((head + b).drop_first() =~= head.drop_first() + b);
    }
}

/// Digits are as many as asked for.
pub proof fn lemma_last_digits_len(n: nat, width: nat)
    ensures
        last_digits(n, width).len() == width,
    decreases width,
{
    if width > 0 {
        lemma_last_digits_len(n / 10, (width - 1) as nat);
    }
}

/// Numbers of the same width are in the order of their digits.
pub proof fn lemma_last_digits_order(a: nat, b: nat, width: nat)
    requires
        a < b < ten_to(width),
    ensures
        precedes(last_digits(a, width), last_digits(b, width)),
    decreases width,
{
    if width > 0 {
        let w = (width - 1) as nat;
        let heads = (last_digits(a / 10, w), last_digits(b / 10, w));
        let tails = (seq![digit(a % 10)], seq![digit(b % 10)]);
        lemma_last_digits_len(a / 10, w);
        lemma_last_digits_len(b / 10, w);
        assert(last_digits(a, width) =~= heads.0 + tails.0);
        assert(last_digits(b, width) =~= heads.1 + tails.1);
        if a / 10 < b / 10 {
            lemma_last_digits_order(a / 10, b / 10, w);
            lemma_precedes_head(heads.0, heads.1, tails.0, tails.1);
        } else {
            assert(precedes(tails.0, tails.1));
            lemma_precedes_tail(heads.0, tails.0, tails.1);
        }
    }
}

/// A number that fits has no more digits than the width.
pub proof fn lemma_digit_count(n: nat, width: nat)
    requires
        width > 0,
        n < ten_to(width),
    ensures
        digit_count(n) <= width,
        padded(n, width) == last_digits(n, width),
    decreases width,
{
    if n >= 10 {
        assert(ten_to(1) == 10) by {
            reveal_with_fuel(ten_to, 2);
        }
        lemma_digit_count(n / 10, (width - 1) as nat);
    }
}

/// `first_index` is a position of `c` or the length, and no `c` comes before it.
pub proof fn lemma_first_index(s: Seq<char>, c: char)
    ensures
        0 <= first_index(s, c) <= s.len(),
        first_index(s, c) < s.len() ==> s[first_index(s, c)] == c,
        forall|j: int| 0 <= j < first_index(s, c) ==> s[j] != c,
    decreases s.len(),
{
    if s.len() > 0 && s[0] != c {
        lemma_first_index(s.drop_first(), c);
        assert forall|j: int| 0 <= j < first_index(s, c) implies s[j] != c by {
            if j > 0 {
                assert(s.drop_first()[j - 1] == s[j]);
            }
        }
    }
}

/// A position of `c` with no `c` before it is the first one.
pub proof fn lemma_first_index_is(s: Seq<char>, c: char, i: int)
    requires
        0 <= i <= s.len(),
        i < s.len() ==> s[i] == c,
        forall|j: int| 0 <= j < i ==> s[j] != c,
    ensures
        first_index(s, c) == i,
{
    lemma_first_index(s, c);
}

// ---------------------------------------------------------------------------
// Conversions
// ---------------------------------------------------------------------------

/// `String::push` appends one character.
pub assume_specification[ String::push ](s: &mut String, c: char)
    ensures
        final(s)@ == old(s)@.push(c),
;

/// The characters of a string slice.
pub fn to_chars(s: &str) -> (v: Vec<char>)
    ensures
        v@ == s@,
{
    let mut v: Vec<char> = Vec::new();
    for c in it: s.chars()
        invariant
            it.seq() == s@,
            v@ == s@.take(it.index()),
    {
        v.push(c);
    }
    assert(s@.take(s@.len() as int) == s@);
    v
}

/// The string of the characters from `from` up to `to`.
pub fn from_chars(v: &[char], from: usize, to: usize) -> (s: String)
    requires
        from <= to <= v@.len(),
    ensures
        s@ == v@.subrange(from as int, to as int),
{
    let mut s = String::new();
    let mut i: usize = from;
    while i < to
        invariant
            from <= i <= to <= v@.len(),
            s@ == v@.subrange(from as int, i as int),
        decreases to - i,
    {
        s.push(v[i]);
        i = i + 1;
    }
    s
}

/// A copy of each string slice.
pub fn to_strings(parts: &[&str]) -> (v: Vec<String>)
    ensures
        v.deep_view() == parts.deep_view(),
{
    let mut v: Vec<String> = Vec::new();
    let mut i: usize = 0;
    while i < parts.len()
        invariant
            i <= parts@.len(),
            v@.len() == i,
            forall|j: int| 0 <= j < i ==> (#[trigger] v@[j])@ == parts@[j]@,
        decreases parts.len() - i,
    {
        v.push(parts[i].to_string());
        i = i + 1;
    }
    assert(v.deep_view() =~= parts.deep_view());
    v
}

/// Both hold the same characters.
pub fn same_text(a: &str, b: &str) -> (same: bool)
    ensures
        same == (a@ == b@),
{
    a.to_string() == b.to_string()
}

// ---------------------------------------------------------------------------
// Searching
// ---------------------------------------------------------------------------

/// Whether `needle` stands in `hay` at `at`.
pub fn is_at(hay: &[char], needle: &[char], at: usize) -> (found: bool)
    ensures
        found == occurs_at(hay@, needle@, at as int),
{
    if at > hay.len() || needle.len() > hay.len() - at {
        return false;
    }
    let mut k: usize = 0;
    while k < needle.len()
        invariant
            k <= needle@.len(),
            at + needle.len() <= hay.len(),
            forall|j: int| 0 <= j < k ==> hay@[at + j] == needle@[j],
        decreases needle.len() - k,
    {
        if hay[at + k] != needle[k] {
            assert(hay@.subrange(at as int, at + needle@.len())[k as int] == hay@[at + k]);
            return false;
        }
        k = k + 1;
    }
    assert(hay@.subrange(at as int, at + needle@.len()) =~= needle@);
    true
}

/// The first position from `from` on at which `needle` stands in `hay`.
pub fn find_from(hay: &[char], needle: &[char], from: usize) -> (found: Option<usize>)
    ensures
        match found {
            Some(i) => {
                &&& from <= i
                &&& occurs_at(hay@, needle@, i as int)
                &&& forall|j: int| from <= j < i ==> !occurs_at(hay@, needle@, j)
            },
            None => forall|j: int| from <= j ==> !occurs_at(hay@, needle@, j),
        },
{
    let mut i: usize = from;
    while i <= hay.len()
        invariant
            from <= i,
            i <= hay@.len() + 1 || i == from,
            forall|j: int| from <= j < i ==> !occurs_at(hay@, needle@, j),
        decreases hay.len() + 1 - i,
    {
        if is_at(hay, needle, i) {
            return Some(i);
        }
        if i == hay.len() {
            return None;
        }
        i = i + 1;
    }
    None
}

/// Whether `needle` stands somewhere in `hay`.
pub fn contains(hay: &str, needle: &str) -> (found: bool)
    ensures
        found == has_text(hay@, needle@),
{
    let h: Vec<char> = to_chars(hay);
    let n: Vec<char> = to_chars(needle);
    match find_from(&h, &n, 0) {
        Some(i) => {
            assert(occurs_at(hay@, needle@, i as int));
            true
        },
        None => false,
    }
}

/// What follows `prefix` in `s`, where `s` starts with it.
pub fn strip_prefix(s: &str, prefix: &str) -> (rest: Option<String>)
    ensures
        match rest {
            Some(r) => after_prefix(s@, prefix@) == Some(r@),
            None => after_prefix(s@, prefix@) is None,
        },
{
    let sc: Vec<char> = to_chars(s);
    let pc: Vec<char> = to_chars(prefix);
    if is_at(&sc, &pc, 0) {
        assert(prefix@ == s@.subrange(0, prefix@.len() as int));
        assert(prefix@.is_prefix_of(s@));
        let r = from_chars(&sc, pc.len(), sc.len());
        assert(r@ == s@.skip(prefix@.len() as int));
        Some(r)
    } else {
        assert(!prefix@.is_prefix_of(s@)) by {
            if prefix@.is_prefix_of(s@) {
                assert(s@.subrange(0, prefix@.len() as int) == prefix@);
                assert(occurs_at(s@, prefix@, 0));
            }
        }
        None
    }
}

// ---------------------------------------------------------------------------
// Splitting
// ---------------------------------------------------------------------------

/// The first position of `c` from `from` on, or the length.
fn index_from(s: &[char], c: char, from: usize) -> (i: usize)
    requires
        from <= s@.len(),
    ensures
        from <= i <= s@.len(),
        i - from == first_index(s@.skip(from as int), c),
{
    let mut i: usize = from;
    while i < s.len() && s[i] != c
        invariant
            from <= i <= s@.len(),
            forall|j: int| from <= j < i ==> s@[j] != c,
        decreases s.len() - i,
    {
        i = i + 1;
    }
    proof {
        lemma_first_index_is(s@.skip(from as int), c, i - from);
    }
    i
}

/// The pieces of `s` between the occurrences of `sep`.
pub fn split(s: &str, sep: char) -> (pieces: Vec<Vec<char>>)
    ensures
        pieces.deep_view() == split_on(s@, sep),
{
    let sc: Vec<char> = to_chars(s);
    let mut pieces: Vec<Vec<char>> = Vec::new();
    let mut pos: usize = 0;
    assert(s@.skip(0) == s@);
    assert(pieces.deep_view() + split_on(s@, sep) == split_on(s@, sep));
    loop
        invariant
            sc@ == s@,
            pos <= s@.len(),
            pieces.deep_view() + split_on(s@.skip(pos as int), sep) == split_on(s@, sep),
        decreases s@.len() - pos,
    {
        let i: usize = index_from(&sc, sep, pos);
        let piece: Vec<char> = section(&sc, pos, i);
        let ghost rest = s@.skip(pos as int);
        let ghost before = pieces.deep_view();
        assert(piece@ == rest.take(i - pos));
        pieces.push(piece);
        assert(piece.deep_view() == piece@);
        assert(pieces.deep_view() == before.push(piece@));
        if i == sc.len() {
            assert(rest.take(i - pos) == rest);
            assert(pieces.deep_view() == before + split_on(rest, sep));
            return pieces;
        }
        proof {
            assert(rest.skip(i - pos + 1) == s@.skip(i + 1));
            assert(split_on(rest, sep) == seq![piece@] + split_on(s@.skip(i + 1), sep));
            assert(pieces.deep_view() + split_on(s@.skip(i + 1), sep)
                == before + split_on(rest, sep));
        }
        pos = i + 1;
    }
}

/// The characters from `from` up to `to`.
fn section(s: &[char], from: usize, to: usize) -> (v: Vec<char>)
    requires
        from <= to <= s@.len(),
    ensures
        v@ == s@.subrange(from as int, to as int),
{
    let mut v: Vec<char> = Vec::new();
    let mut i: usize = from;
    while i < to
        invariant
            from <= i <= to <= s@.len(),
            v@ == s@.subrange(from as int, i as int),
        decreases to - i,
    {
        v.push(s[i]);
        i = i + 1;
    }
    v
}

/// The lines of a text, without their line ends.
pub fn lines(s: &str) -> (found: Vec<String>)
    ensures
        found.deep_view() == lines_of(s@),
{
    let sc: Vec<char> = to_chars(s);
    let mut found: Vec<String> = Vec::new();
    let mut pos: usize = 0;
    assert(s@.skip(0) == s@);
    assert(found.deep_view() + lines_of(s@) == lines_of(s@));
    while pos < sc.len()
        invariant
            sc@ == s@,
            pos <= s@.len(),
            found.deep_view() + lines_of(s@.skip(pos as int)) == lines_of(s@),
        decreases s@.len() - pos,
    {
        let i: usize = index_from(&sc, '\n', pos);
        let ghost rest = s@.skip(pos as int);
        let ghost before = found.deep_view();
        if i == sc.len() {
            let line = from_chars(&sc, pos, i);
            assert(line@ == rest);
            found.push(line);
            assert(found.deep_view() == before.push(line@));
            assert(lines_of(rest) == seq![rest]);
            assert(found.deep_view() == before + lines_of(rest));
            return found;
        }
        let end: usize = if i > pos && sc[i - 1] == '\r' {
            i - 1
        } else {
            i
        };
        let line = from_chars(&sc, pos, end);
        proof {
            assert(rest.take(i - pos) == s@.subrange(pos as int, i as int));
            assert(line@ == without_cr(rest.take(i - pos)));
        }
        found.push(line);
        proof {
            assert(found.deep_view() == before.push(line@));
            assert(rest.skip(i - pos + 1) == s@.skip(i + 1));
            assert(lines_of(rest) == seq![line@] + lines_of(s@.skip(i + 1)));
            assert(found.deep_view() + lines_of(s@.skip(i + 1)) == before
                + lines_of(rest));
        }
        pos = i + 1;
    }
    assert(lines_of(s@.skip(pos as int)) == Seq::<Seq<char>>::empty());
    assert(found.deep_view() + Seq::<Seq<char>>::empty() == found.deep_view());
    found
}

// ---------------------------------------------------------------------------
// Trimming
// ---------------------------------------------------------------------------

/// Whether `c` has the Unicode property `White_Space`.
pub fn is_white_space(c: char) -> (yes: bool)
    ensures
        yes == white_space(c),
{
    ('\u{9}' <= c && c <= '\u{d}') || c == ' ' || c == '\u{85}' || c == '\u{a0}' || c == '\u{1680}'
        || ('\u{2000}' <= c && c <= '\u{200a}') || c == '\u{2028}' || c == '\u{2029}'
        || c == '\u{202f}' || c == '\u{205f}' || c == '\u{3000}'
}

/// `s` without the white space at both ends.
pub fn trim(s: &str) -> (t: String)
    ensures
        t@ == trimmed(s@),
{
    let sc: Vec<char> = to_chars(s);
    let mut from: usize = 0;
    assert(s@.skip(0) == s@);
    while from < sc.len() && is_white_space(sc[from])
        invariant
            sc@ == s@,
            from <= s@.len(),
            trim_front(s@.skip(from as int)) == trim_front(s@),
        decreases sc.len() - from,
    {
        assert(s@.skip(from as int).drop_first() == s@.skip(from + 1));
        from = from + 1;
    }
    let ghost front = s@.skip(from as int);
    assert(trim_front(s@) == front);
    let mut to: usize = sc.len();
    assert(s@.subrange(from as int, to as int) == front);
    while from < to && is_white_space(sc[to - 1])
        invariant
            sc@ == s@,
            from <= to <= s@.len(),
            trim_back(s@.subrange(from as int, to as int)) == trim_back(front),
        decreases to - from,
    {
        assert(s@.subrange(from as int, to as int).drop_last() == s@.subrange(
            from as int,
            to - 1,
        ));
        to = to - 1;
    }
    from_chars(&sc, from, to)
}

/// `s` without the run of `c` that it ends in.
pub fn trim_end_matches(s: &str, c: char) -> (t: String)
    ensures
        t@ == trim_end_char(s@, c),
{
    let sc: Vec<char> = to_chars(s);
    let mut to: usize = sc.len();
    assert(s@.take(to as int) == s@);
    while 0 < to && sc[to - 1] == c
        invariant
            sc@ == s@,
            to <= s@.len(),
            trim_end_char(s@.take(to as int), c) == trim_end_char(s@, c),
        decreases to,
    {
        assert(s@.take(to as int).drop_last() == s@.take(to - 1));
        to = to - 1;
    }
    let t = from_chars(&sc, 0, to);
    assert(t@ == s@.take(to as int));
    t
}

// ---------------------------------------------------------------------------
// Assembling
// ---------------------------------------------------------------------------

/// The parts with `sep` between each two neighbours.
pub fn join(parts: &[&str], sep: &str) -> (s: String)
    ensures
        s@ == joined_with(parts.deep_view(), sep@),
{
    let mut s = String::new();
    let mut i: usize = 0;
    assert(parts.deep_view().take(0) == Seq::<Seq<char>>::empty());
    while i < parts.len()
        invariant
            i <= parts@.len(),
            s@ == joined_with(parts.deep_view().take(i as int), sep@),
        decreases parts.len() - i,
    {
        let ghost views = parts.deep_view();
        if i > 0 {
            s.append(sep);
        }
        s.append(parts[i]);
        proof {
            assert(views.take(i + 1).drop_last() == views.take(i as int));
            assert(views.take(i + 1).last() == parts@[i as int]@);
            if i == 0 {
                assert(Seq::<char>::empty() + parts@[0]@ == parts@[0]@);
            }
        }
        i = i + 1;
    }
    assert(parts.deep_view().take(parts@.len() as int) == parts.deep_view());
    s
}

/// The character for a decimal digit.
fn digit_char(d: u64) -> (c: char)
    requires
        d < 10,
    ensures
        c == digit(d as nat),
{
    (48 + d as u8) as char
}

/// Appends the last `width` digits of `n`.
fn push_last_digits(s: &mut String, n: u64, width: u64)
    ensures
        final(s)@ == old(s)@ + last_digits(n as nat, width as nat),
    decreases width,
{
    if width > 0 {
        let ghost before = s@;
        push_last_digits(s, n / 10, width - 1);
        s.push(digit_char(n % 10));
        assert(s@ == before + last_digits(n as nat, width as nat));
    }
}

/// How many decimal digits `n` has.
fn count_digits(n: u64) -> (count: u64)
    ensures
        count == digit_count(n as nat),
        count <= n / 10 + 1,
    decreases n,
{
    if n < 10 {
        1
    } else {
        1 + count_digits(n / 10)
    }
}

/// Appends `n` in decimal, filled up with leading zeros to at least `width`
/// digits.
pub fn push_padded(s: &mut String, n: u64, width: u64)
    ensures
        final(s)@ == old(s)@ + padded(n as nat, width as nat),
{
    let count: u64 = count_digits(n);
    if count > width {
        push_last_digits(s, n, count);
    } else {
        push_last_digits(s, n, width);
    }
}

// ---------------------------------------------------------------------------
// Laws
// ---------------------------------------------------------------------------

/// A text stands somewhere in another exactly if the other is that text with something
/// before it and something after it.
pub proof fn law_has_text(hay: Seq<char>, needle: Seq<char>)
    ensures
        has_text(hay, needle) <==> exists|a: Seq<char>, b: Seq<char>| hay == #[trigger] (a + needle
            + b),
{
    if has_text(hay, needle) {
        let at = choose|at: int| occurs_at(hay, needle, at);
        let a = hay.take(at);
        let b = hay.skip(at + needle.len());
        assert(hay =~= a + needle + b) by {
            assert forall|i: int| 0 <= i < hay.len() implies hay[i] == (a + needle + b)[i] by {
                if at <= i < at + needle.len() {
                    assert(hay.subrange(at, at + needle.len())[i - at] == hay[i]);
                }
            }
        }
    }
    if exists|a: Seq<char>, b: Seq<char>| hay == #[trigger] (a + needle + b) {
        let (a, b) = choose|a: Seq<char>, b: Seq<char>| hay == #[trigger] (a + needle + b);
        let at = a.len() as int;
        assert(hay.subrange(at, at + needle.len()) =~= needle);
        assert(occurs_at(hay, needle, at));
    }
}

/// Joining puts the separator between neighbours and nowhere else.
pub proof fn law_joined(a: Seq<Seq<char>>, b: Seq<Seq<char>>, part: Seq<char>, sep: Seq<char>)
    ensures
        joined_with(Seq::empty(), sep) == Seq::<char>::empty(),
        joined_with(seq![part], sep) == part,
        a.len() > 0 && b.len() > 0 ==> joined_with(a + b, sep) == joined_with(a, sep) + sep
            + joined_with(b, sep),
    decreases b.len(),
{
    if a.len() > 0 && b.len() > 0 {
        assert((a + b).drop_last() =~= a + b.drop_last());
        assert((a + b).last() == b.last());
        if b.len() == 1 {
            assert(a + b.drop_last() =~= a);
        } else {
            law_joined(a, b.drop_last(), part, sep);
            let (x, y) = (joined_with(a, sep), joined_with(b.drop_last(), sep));
            assert(x + sep + y + sep + b.last() =~= x + sep + (y + sep + b.last()));
        }
    }
}

/// Splitting undoes joining: the pieces hold no separator, and joined with it they are the
/// text again.
pub proof fn law_split(s: Seq<char>, sep: char)
    ensures
        split_on(s, sep).len() > 0,
        forall|i: int| 0 <= i < split_on(s, sep).len() ==> !(#[trigger] split_on(s, sep)[i]).contains(
            sep,
        ),
        joined_with(split_on(s, sep), seq![sep]) == s,
    decreases s.len(),
{
    lemma_first_index(s, sep);
    let at = first_index(s, sep);
    let pieces = split_on(s, sep);
    if at < s.len() {
        let rest = s.skip(at + 1);
        let first = seq![s.take(at)];
        law_split(rest, sep);
        law_joined(first, split_on(rest, sep), s.take(at), seq![sep]);
        assert(s =~= s.take(at) + seq![sep] + rest);
        assert forall|i: int| 0 <= i < pieces.len() implies !(#[trigger] pieces[i]).contains(sep) by {
            if i > 0 {
                assert(pieces[i] == split_on(rest, sep)[i - 1]);
            }
        }
    } else {
        law_joined(Seq::empty(), Seq::empty(), s, seq![sep]);
    }
}

/// The lines of a text: none of an empty one, one where no line feed is in it; a first line
/// that a line feed ends comes before the lines of the rest, and a carriage return before
/// the line feed belongs to the end of the line.
pub proof fn law_lines(line: Seq<char>, rest: Seq<char>)
    requires
        !line.contains('\n'),
    ensures
        lines_of(Seq::empty()) == Seq::<Seq<char>>::empty(),
        line.len() > 0 ==> lines_of(line) == seq![line],
        line.len() == 0 || line.last() != '\r' ==> lines_of(line + seq!['\n'] + rest) == seq![line]
            + lines_of(rest),
        lines_of(line + seq!['\r', '\n'] + rest) == seq![line] + lines_of(rest),
{
    lemma_first_index(line, '\n');
    let plain = line + seq!['\n'] + rest;
    let n = line.len() as int;
    assert forall|j: int| 0 <= j < n implies line[j] != '\n' by {
        assert(line.contains(line[j]));
    }
    lemma_first_index_is(plain, '\n', n);
    assert(plain.take(n) =~= line);
    assert(plain.skip(n + 1) =~= rest);
    let with_cr = line + seq!['\r', '\n'] + rest;
    assert forall|j: int| 0 <= j < n + 1 implies with_cr[j] != '\n' by {}
    lemma_first_index_is(with_cr, '\n', n + 1);
    assert(with_cr.take(n + 1) =~= line.push('\r'));
    assert(line.push('\r').drop_last() =~= line);
    assert(with_cr.skip(n + 2) =~= rest);
    if n > 0 {
        if first_index(line, '\n') < n {
            assert(line.contains(line[first_index(line, '\n')]));
        }
    }
}

/// A run of white space before a text goes.
proof fn lemma_trim_front(ws: Seq<char>, s: Seq<char>)
    requires
        forall|i: int| 0 <= i < ws.len() ==> white_space(#[trigger] ws[i]),
    ensures
        trim_front(ws + s) == trim_front(s),
    decreases ws.len(),
{
    if ws.len() == 0 {
        assert(ws + s =~= s);
    } else {
        assert((ws + s).drop_first() =~= ws.drop_first() + s);
        assert((ws + s)[0] == ws[0]);
        lemma_trim_front(ws.drop_first(), s);
    }
}

/// A run of white space after a text goes.
proof fn lemma_trim_back(s: Seq<char>, ws: Seq<char>)
    requires
        forall|i: int| 0 <= i < ws.len() ==> white_space(#[trigger] ws[i]),
    ensures
        trim_back(s + ws) == trim_back(s),
    decreases ws.len(),
{
    if ws.len() == 0 {
        assert(s + ws =~= s);
    } else {
        assert((s + ws).drop_last() =~= s + ws.drop_last());
        assert((s + ws).last() == ws.last());
        lemma_trim_back(s, ws.drop_last());
    }
}

/// Trimming takes off the white space around a text, and nothing of a text that neither
/// starts nor ends in any.
pub proof fn law_trimmed(before: Seq<char>, s: Seq<char>, after: Seq<char>)
    requires
        forall|i: int| 0 <= i < before.len() ==> white_space(#[trigger] before[i]),
        forall|i: int| 0 <= i < after.len() ==> white_space(#[trigger] after[i]),
        s.len() > 0 ==> !white_space(s[0]) && !white_space(s.last()),
    ensures
        trimmed(before + s + after) == s,
{
    assert(before + s + after =~= before + (s + after));
    lemma_trim_front(before, s + after);
    if s.len() == 0 {
        lemma_trim_front(after, Seq::empty());
        assert(s + after =~= after + Seq::<char>::empty());
        assert(trim_front(s + after) =~= Seq::<char>::empty());
        assert(s =~= Seq::<char>::empty());
    } else {
        assert((s + after)[0] == s[0]);
        lemma_trim_back(s, after);
    }
}

/// Every text is what trimming leaves of it with white space around it.
pub proof fn law_trimmed_is_part(s: Seq<char>)
    ensures
        exists|before: Seq<char>, after: Seq<char>|
            {
                &&& s == #[trigger] (before + trimmed(s) + after)
                &&& forall|i: int| 0 <= i < before.len() ==> white_space(#[trigger] before[i])
                &&& forall|i: int| 0 <= i < after.len() ==> white_space(#[trigger] after[i])
            },
        trimmed(s).len() > 0 ==> !white_space(trimmed(s)[0]) && !white_space(trimmed(s).last()),
{
    let before = lemma_front_part(s);
    let front = trim_front(s);
    let after = lemma_back_part(front);
    assert(s =~= before + trimmed(s) + after);
    if trimmed(s).len() > 0 {
        assert(trimmed(s)[0] == front[0]);
    }
}

/// What trimming takes off the front.
proof fn lemma_front_part(s: Seq<char>) -> (before: Seq<char>)
    ensures
        s == before + trim_front(s),
        forall|i: int| 0 <= i < before.len() ==> white_space(#[trigger] before[i]),
        trim_front(s).len() > 0 ==> !white_space(trim_front(s)[0]),
    decreases s.len(),
{
    if s.len() > 0 && white_space(s[0]) {
        let rest = lemma_front_part(s.drop_first());
        let before = seq![s[0]] + rest;
        assert(before + trim_front(s) =~= seq![s[0]] + (rest + trim_front(s.drop_first())));
        assert(s =~= seq![s[0]] + s.drop_first());
        assert(s =~= before + trim_front(s));
        before
    } else {
        assert(s =~= Seq::<char>::empty() + s);
        Seq::empty()
    }
}

/// What trimming takes off the back.
proof fn lemma_back_part(s: Seq<char>) -> (after: Seq<char>)
    ensures
        s == trim_back(s) + after,
        forall|i: int| 0 <= i < after.len() ==> white_space(#[trigger] after[i]),
        trim_back(s).len() > 0 ==> !white_space(trim_back(s).last()),
    decreases s.len(),
{
    if s.len() > 0 && white_space(s.last()) {
        let rest = lemma_back_part(s.drop_last());
        let after = rest.push(s.last());
        assert(trim_back(s) + after =~= (trim_back(s.drop_last()) + rest).push(s.last()));
        assert(s =~= s.drop_last().push(s.last()));
        assert(s =~= trim_back(s) + after);
        after
    } else {
        assert(s =~= s + Seq::<char>::empty());
        Seq::empty()
    }
}

/// Exactly the run of `c` that a text ends in goes.
pub proof fn law_trim_end_char(s: Seq<char>, run: Seq<char>, c: char)
    requires
        s.len() > 0 ==> s.last() != c,
        forall|i: int| 0 <= i < run.len() ==> #[trigger] run[i] == c,
    ensures
        trim_end_char(s + run, c) == s,
    decreases run.len(),
{
    if run.len() == 0 {
        assert(s + run =~= s);
    } else {
        assert((s + run).last() == run.last());
        assert((s + run).drop_last() =~= s + run.drop_last());
        law_trim_end_char(s, run.drop_last(), c);
    }
}

/// What follows a prefix is what it takes to make the text of it.
pub proof fn law_after_prefix(s: Seq<char>, prefix: Seq<char>, rest: Seq<char>)
    ensures
        after_prefix(s, prefix) == Some(rest) <==> s == prefix + rest,
        after_prefix(s, prefix) is None <==> !exists|r: Seq<char>| s == #[trigger] (prefix + r),
{
    if s == prefix + rest {
        assert(prefix =~= s.subrange(0, prefix.len() as int));
        assert(s.skip(prefix.len() as int) =~= rest);
    }
    if prefix.is_prefix_of(s) {
        assert(s =~= prefix + s.skip(prefix.len() as int));
    }
    if exists|r: Seq<char>| s == #[trigger] (prefix + r) {
        let r = choose|r: Seq<char>| s == #[trigger] (prefix + r);
        assert(prefix =~= s.subrange(0, prefix.len() as int));
    }
}

/// The number that decimal digits stand for.
pub open spec fn digits_value(s: Seq<char>) -> int
    decreases s.len(),
{
    if s.len() == 0 {
        0
    } else {
        10 * digits_value(s.drop_last()) + (s.last() as int - 48)
    }
}

/// The last digits stand for the number, without what is beyond the width.
proof fn lemma_last_digits_value(n: nat, width: nat)
    requires
        n < ten_to(width),
    ensures
        digits_value(last_digits(n, width)) == n,
        forall|i: int|
            0 <= i < width ==> 48 <= (#[trigger] last_digits(n, width)[i]) as int <= 57,
    decreases width,
{
    lemma_last_digits_len(n, width);
    if width > 0 {
        let w = (width - 1) as nat;
        lemma_last_digits_len(n / 10, w);
        lemma_last_digits_value(n / 10, w);
        let s = last_digits(n, width);
        assert(s.drop_last() =~= last_digits(n / 10, w));
        assert(s.last() as int == 48 + n % 10);
    }
}

/// A number has as many digits as it takes.
proof fn lemma_digits_suffice(n: nat)
    ensures
        n < ten_to(digit_count(n)),
        n >= 10 ==> n >= ten_to((digit_count(n) - 1) as nat),
        digit_count(n) >= 1,
    decreases n,
{
    if n >= 10 {
        lemma_digits_suffice(n / 10);
        if n / 10 < 10 {
            reveal_with_fuel(ten_to, 3);
        }
    } else {
        reveal_with_fuel(ten_to, 2);
    }
}

/// More zeros make more.
proof fn lemma_ten_to_grows(a: nat, b: nat)
    requires
        a <= b,
    ensures
        ten_to(a) <= ten_to(b),
    decreases b,
{
    if a < b {
        lemma_ten_to_grows(a, (b - 1) as nat);
    }
}

/// A padded number is written in decimal digits that stand for it, at least as many as the
/// width, and no more than that where the first one is a zero.
pub proof fn law_padded(n: nat, width: nat)
    requires
        width > 0,
    ensures
        digits_value(padded(n, width)) == n,
        forall|i: int|
            0 <= i < padded(n, width).len() ==> 48 <= (#[trigger] padded(n, width)[i]) as int <= 57,
        padded(n, width).len() >= width,
        padded(n, width).len() > width ==> padded(n, width)[0] != '0',
{
    lemma_digits_suffice(n);
    let count = digit_count(n);
    let w = if count > width {
        count
    } else {
        width
    };
    lemma_ten_to_grows(count, w);
    lemma_last_digits_len(n, w);
    lemma_last_digits_value(n, w);
    if count > width {
        lemma_leading_digit(n, count);
    }
}

/// The first digit of a number that needs them all is no zero.
proof fn lemma_leading_digit(n: nat, width: nat)
    requires
        width > 1,
        n >= ten_to((width - 1) as nat),
        n < ten_to(width),
    ensures
        last_digits(n, width)[0] != '0',
    decreases width,
{
    lemma_last_digits_len(n / 10, (width - 1) as nat);
    if width > 2 {
        lemma_leading_digit(n / 10, (width - 1) as nat);
    } else {
        reveal_with_fuel(ten_to, 3);
        reveal_with_fuel(last_digits, 3);
    }
}

/// What is picked of two sequences, one after the other.
pub proof fn lemma_filter_map_concat<A, B>(a: Seq<A>, b: Seq<A>, f: spec_fn(A) -> Option<B>)
    ensures
        (a + b).filter_map(f) == a.filter_map(f) + b.filter_map(f),
    decreases b.len(),
{
    if b.len() == 0 {
        assert(a + b =~= a);
        assert(a.filter_map(f) + b.filter_map(f) =~= a.filter_map(f));
    } else {
        assert((a + b).drop_last() =~= a + b.drop_last());
        lemma_filter_map_concat(a, b.drop_last(), f);
        assert((a + b).filter_map(f) =~= a.filter_map(f) + b.filter_map(f));
    }
}

/// What is picked for an element is among what is picked.
pub proof fn lemma_filter_map_has<A, B>(s: Seq<A>, f: spec_fn(A) -> Option<B>, i: int)
    requires
        0 <= i < s.len(),
        f(s[i]) is Some,
    ensures
        s.filter_map(f).contains(f(s[i]).unwrap()),
    decreases s.len(),
{
    let rest = s.drop_last().filter_map(f);
    if i == s.len() - 1 {
        assert(s.filter_map(f).last() == f(s[i]).unwrap());
    } else {
        lemma_filter_map_has(s.drop_last(), f, i);
        let j = choose|j: int| 0 <= j < rest.len() && rest[j] == f(s[i]).unwrap();
        assert(s.filter_map(f)[j] == f(s[i]).unwrap());
    }
}

/// The carriage return at the end of a line makes no difference to what trimming leaves.
pub proof fn lemma_trimmed_without_cr(line: Seq<char>)
    ensures
        trimmed(without_cr(line)) == trimmed(line),
{
    let x = without_cr(line);
    if line.len() > 0 && line.last() == '\r' {
        law_trimmed_is_part(x);
        let (before, after) = choose|before: Seq<char>, after: Seq<char>|
            {
                &&& x == #[trigger] (before + trimmed(x) + after)
                &&& forall|i: int| 0 <= i < before.len() ==> white_space(#[trigger] before[i])
                &&& forall|i: int| 0 <= i < after.len() ==> white_space(#[trigger] after[i])
            };
        assert(line =~= x.push('\r'));
        assert(before + trimmed(x) + after.push('\r') =~= (before + trimmed(x) + after).push(
            '\r',
        ));
        law_trimmed(before, trimmed(x), after.push('\r'));
    }
}

/// The first line of a text, as trimming leaves it, comes before the lines of the rest.
pub proof fn lemma_first_line(line: Seq<char>, rest: Seq<char>)
    requires
        !line.contains('\n'),
    ensures
        lines_of(line + seq!['\n'] + rest) == seq![without_cr(line)] + lines_of(rest),
{
    if line.len() > 0 && line.last() == '\r' {
        let x = line.drop_last();
        assert forall|c: char| x.contains(c) implies line.contains(c) by {
            let i = choose|i: int| 0 <= i < x.len() && x[i] == c;
            assert(line[i] == c);
        }
        law_lines(x, rest);
        assert(line + seq!['\n'] + rest =~= x + seq!['\r', '\n'] + rest);
    } else {
        law_lines(line, rest);
    }
}

/// Trimming takes off tabs, line breaks and spaces, the wide and the narrow ones too, by their
/// numbers in Unicode, and nothing else.
pub proof fn law_white_space(c: char)
    ensures
        ({
            let n = c as int;
            trimmed(seq![c]).len() == 0 <==> 9 <= n <= 13 || n == 32 || n == 133 || n == 160 || n
                == 5760 || 8192 <= n <= 8202 || n == 8232 || n == 8233 || n == 8239 || n == 8287
                || n == 12288
        }),
        white_space(c) <==> trimmed(seq![c]).len() == 0,
{
    reveal_with_fuel(trim_front, 2);
    reveal_with_fuel(trim_back, 2);
}

} // verus!
