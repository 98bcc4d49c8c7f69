//! File-system paths, held as the bytes that name them.

use vstd::prelude::*;
use vstd::utf8;

verus! {

// ---------------------------------------------------------------------------
// Bytes and text
// ---------------------------------------------------------------------------

/// The text that bytes are shown as where they are not UTF-8.
pub uninterp spec fn lossy_utf8(bytes: Seq<u8>) -> Seq<char>;

/// The text that bytes are shown as: the characters that they encode, or what replaces
/// them where they encode none.
pub open spec fn shown(bytes: Seq<u8>) -> Seq<char> {
    if utf8::valid_utf8(bytes) {
        utf8::decode_utf8(bytes)
    } else {
        lossy_utf8(bytes)
    }
}

/// `String::from_utf8_lossy`: bytes as text. Bytes that are UTF-8 come out as the
/// characters that they encode; in others each ill-formed stretch is replaced,
/// which [`lossy_utf8`] only names.
#[verifier::external_body]
pub(crate) fn from_utf8_lossy(bytes: &[u8]) -> (s: String)
    ensures
        utf8::valid_utf8(bytes@) ==> s@ == utf8::decode_utf8(bytes@),
        !utf8::valid_utf8(bytes@) ==> s@ == lossy_utf8(bytes@),
{
    String::from_utf8_lossy(bytes).into_owned()
}

/// `std::str::from_utf8`: bytes as text where they are UTF-8, and only there.
#[verifier::external_body]
pub(crate) fn from_utf8(bytes: &[u8]) -> (s: Option<String>)
    ensures
        match s {
            Some(t) => utf8::valid_utf8(bytes@) && t@ == utf8::decode_utf8(bytes@),
            None => !utf8::valid_utf8(bytes@),
        },
{
    std::str::from_utf8(bytes).ok().map(|s| s.to_string())
}

/// The bytes of a text.
pub fn bytes_of(s: &str) -> (bytes: Vec<u8>)
    ensures
        bytes@ == utf8::encode_utf8(s@),
{
    vstd::slice::slice_to_vec(s.as_bytes())
}

/// A copy of a path.
pub fn copy_of(path: &[u8]) -> (copy: Vec<u8>)
    ensures
        copy@ == path@,
{
    vstd::slice::slice_to_vec(path)
}

/// The paths that a sequence of byte strings stands for.
pub open spec fn views(paths: Seq<Vec<u8>>) -> Seq<Seq<u8>> {
    paths.map_values(|p: Vec<u8>| p@)
}

// ---------------------------------------------------------------------------
// Joining
// ---------------------------------------------------------------------------

/// `rest` seen from the directory `base`. An absolute path stays what it is.
pub open spec fn joined(base: Seq<u8>, rest: Seq<u8>) -> Seq<u8> {
    if rest.len() > 0 && rest[0] == 47 {
        rest
    } else if base.len() == 0 || base.last() == 47 {
        base + rest
    } else {
        base.push(47) + rest
    }
}

/// The entry `name` of the directory `base`, or what the relative path `name`
/// leads to from there.
pub open spec fn joined_text(base: Seq<u8>, name: Seq<char>) -> Seq<u8> {
    joined(base, utf8::encode_utf8(name))
}

/// `rest` seen from the directory `base`.
pub fn join(base: &[u8], rest: &[u8]) -> (path: Vec<u8>)
    ensures
        path@ == joined(base@, rest@),
{
    if rest.len() > 0 && rest[0] == 47 {
        return copy_of(rest);
    }
    let mut path: Vec<u8> = copy_of(base);
    if base.len() > 0 && base[base.len() - 1] != 47 {
        path.push(47);
    }
    let mut i: usize = 0;
    let ghost start = path@;
    while i < rest.len()
        invariant
            i <= rest@.len(),
            path@ == start + rest@.take(i as int),
        decreases rest.len() - i,
    {
        path.push(rest[i]);
        assert(rest@.take(i + 1) == rest@.take(i as int).push(rest@[i as int]));
        i = i + 1;
    }
    assert(rest@.take(rest@.len() as int) == rest@);
    path
}

/// The entry `name` of the directory `base`.
pub fn join_text(base: &[u8], name: &str) -> (path: Vec<u8>)
    ensures
        path@ == joined_text(base@, name@),
{
    join(base, name.as_bytes())
}

// ---------------------------------------------------------------------------
// Taking apart
// ---------------------------------------------------------------------------

/// The position of the last separator, or -1 where there is none.
pub open spec fn last_slash(path: Seq<char>) -> int
    decreases path.len(),
{
    if path.len() == 0 {
        -1
    } else if path.last() == '/' {
        path.len() - 1
    } else {
        last_slash(path.drop_last())
    }
}

/// What comes after the last separator.
pub open spec fn last_part(path: Seq<char>) -> Seq<char> {
    path.skip(last_slash(path) + 1)
}

/// What comes before the last separator: nothing where there is none, and the root where
/// it comes first.
pub open spec fn dir_part(path: Seq<char>) -> Seq<char> {
    if last_slash(path) < 0 {
        Seq::empty()
    } else if last_slash(path) == 0 {
        seq!['/']
    } else {
        path.take(last_slash(path))
    }
}

/// A file name that stands for itself: not empty, and not one of the two names that
/// lead elsewhere.
pub open spec fn is_plain(name: Seq<char>) -> bool {
    name.len() > 0 && name != seq!['.'] && name != seq!['.', '.']
}

/// A path whose last part stands for itself, in a directory that is written plainly: the
/// current one, the root, or one whose last part stands for itself too.
pub open spec fn is_entry(path: Seq<char>) -> bool {
    &&& is_plain(last_part(path))
    &&& last_slash(path) <= 0 || is_plain(last_part(dir_part(path)))
}

/// What `Path::parent` gives for a path that is no [`is_entry`].
pub uninterp spec fn path_parent(path: Seq<char>) -> Option<Seq<char>>;

/// What `Path::file_name` gives for a path that is no [`is_entry`].
pub uninterp spec fn path_file_name(path: Seq<char>) -> Option<Seq<char>>;

/// The directory that a path is in.
pub open spec fn parent_of(path: Seq<char>) -> Option<Seq<char>> {
    if is_entry(path) {
        Some(dir_part(path))
    } else {
        path_parent(path)
    }
}

/// The name of what a path leads to, in the directory that it is in.
pub open spec fn name_of(path: Seq<char>) -> Option<Seq<char>> {
    if is_entry(path) {
        Some(last_part(path))
    } else {
        path_file_name(path)
    }
}

/// `Path::parent`, on Unix: the path without its final component, if it has one. Where
/// the path is an [`is_entry`], that is what comes before the last separator: the empty
/// path for a single name, and the root for a name in it. For other paths
/// [`path_parent`] only names it.
#[verifier::external_body]
pub(crate) fn parent(path: &str) -> (dir: Option<String>)
    ensures
        is_entry(path@) ==> dir.deep_view() == Some(dir_part(path@)),
        !is_entry(path@) ==> dir.deep_view() == path_parent(path@),
{
    std::path::Path::new(path).parent().map(|d| d.to_string_lossy().into_owned())
}

/// `Path::file_name`, on Unix: the final component of the path, if it has one that
/// stands for itself. Where the path is an [`is_entry`], that is what comes after the
/// last separator. For other paths [`path_file_name`] only names it.
#[verifier::external_body]
pub(crate) fn file_name(path: &str) -> (name: Option<String>)
    ensures
        is_entry(path@) ==> name.deep_view() == Some(last_part(path@)),
        !is_entry(path@) ==> name.deep_view() == path_file_name(path@),
{
    std::path::Path::new(path).file_name().map(|n| n.to_string_lossy().into_owned())
}

// ---------------------------------------------------------------------------
// Laws
// ---------------------------------------------------------------------------

/// The bytes of a character begin or end in a separator only if it is one.
proof fn lemma_encode_char(c: char)
    ensures
        ({
            let bytes = utf8::encode_scalar(c as u32);
            &&& bytes.len() > 0
            &&& (bytes[0] == 47) == (c == '/')
            &&& (bytes.last() == 47) == (c == '/')
            &&& c == '/' ==> bytes == seq![47u8]
        }),
{
    utf8::char_is_scalar(c);
    let u = c as u32;
    assert(u <= 0x7f ==> (u & 0x7f) as u8 == u) by (bit_vector);
    assert(0xc0u8 | ((u >> 6) & 0x1f) as u8 >= 0xc0u8) by (bit_vector);
    assert(0xe0u8 | ((u >> 12) & 0x0f) as u8 >= 0xe0u8) by (bit_vector);
    assert(0xf0u8 | ((u >> 18) & 0x7) as u8 >= 0xf0u8) by (bit_vector);
    assert(0x80u8 | (u & 0x3f) as u8 >= 0x80u8) by (bit_vector);
}

/// The bytes of two texts after each other.
proof fn lemma_encode_concat(a: Seq<char>, b: Seq<char>)
    ensures
        utf8::encode_utf8(a + b) == utf8::encode_utf8(a) + utf8::encode_utf8(b),
    decreases a.len(),
{
    if a.len() == 0 {
        assert(a + b =~= b);
        assert(utf8::encode_utf8(a) + utf8::encode_utf8(b) =~= utf8::encode_utf8(b));
    } else {
        lemma_encode_concat(a.drop_first(), b);
        assert((a + b).drop_first() =~= a.drop_first() + b);
        let first = utf8::encode_scalar(a[0] as u32);
        let rest = utf8::encode_utf8(a.drop_first());
        assert(first + (rest + utf8::encode_utf8(b)) =~= (first + rest) + utf8::encode_utf8(b));
    }
}

/// The bytes of a text of one character.
proof fn lemma_encode_one(c: char)
    ensures
        utf8::encode_utf8(seq![c]) == utf8::encode_scalar(c as u32),
{
    reveal_with_fuel(utf8::encode_utf8, 2);
    assert(utf8::encode_utf8(seq![c]) =~= utf8::encode_scalar(c as u32));
}

/// The bytes of a text are UTF-8 and show it.
pub proof fn law_text_is_shown(s: Seq<char>)
    ensures
        shown(utf8::encode_utf8(s)) == s,
{
    utf8::encode_utf8_valid_utf8(s);
    utf8::encode_utf8_decode_utf8(s);
}

/// The path of `name` in the directory `dir`: with a separator between the two, unless
/// the directory ends in one or is the current one.
pub open spec fn entry_text(dir: Seq<char>, name: Seq<char>) -> Seq<char> {
    if dir.len() == 0 || dir.last() == '/' {
        dir + name
    } else {
        dir.push('/') + name
    }
}

/// A directory without the separator that its text may end in. The root stays.
pub open spec fn bare(dir: Seq<char>) -> Seq<char> {
    if dir.len() > 1 && dir.last() == '/' {
        dir.drop_last()
    } else {
        dir
    }
}

/// A directory that is written plainly: the current one, the root, or one whose last part
/// stands for itself, with a separator at its end or without.
pub open spec fn is_directory(dir: Seq<char>) -> bool {
    dir.len() == 0 || dir == seq!['/'] || is_plain(last_part(bare(dir)))
}

/// The bytes of a text end in a separator only if it does.
proof fn lemma_encode_last(s: Seq<char>)
    ensures
        s.len() == 0 <==> utf8::encode_utf8(s).len() == 0,
        s.len() > 0 ==> (utf8::encode_utf8(s).last() == 47 <==> s.last() == '/'),
{
    if s.len() > 0 {
        let front = s.drop_last();
        assert(s =~= front + seq![s.last()]);
        lemma_encode_concat(front, seq![s.last()]);
        lemma_encode_one(s.last());
        lemma_encode_char(s.last());
    }
}

/// The bytes of a text with a separator after it.
proof fn lemma_encode_slash(s: Seq<char>)
    ensures
        utf8::encode_utf8(s.push('/')) == utf8::encode_utf8(s).push(47),
{
    lemma_encode_one('/');
    lemma_encode_char('/');
    assert(s.push('/') =~= s + seq!['/']);
    lemma_encode_concat(s, seq!['/']);
    assert(utf8::encode_utf8(s).push(47) =~= utf8::encode_utf8(s) + seq![47u8]);
}

/// The bytes of a relative path begin in no separator.
pub proof fn lemma_starts_relative(name: Seq<char>)
    requires
        name.len() > 0 ==> name[0] != '/',
    ensures
        utf8::encode_utf8(name).len() > 0 ==> utf8::encode_utf8(name)[0] != 47,
{
    if name.len() > 0 {
        lemma_encode_char(name[0]);
    }
}

/// To join a relative path to a directory is to write a separator between the two, unless
/// the directory ends in one or is the current one.
pub proof fn law_join_is_textual(dir: Seq<char>, name: Seq<char>)
    requires
        name.len() > 0 ==> name[0] != '/',
    ensures
        joined_text(utf8::encode_utf8(dir), name) == utf8::encode_utf8(entry_text(dir, name)),
        shown(joined_text(utf8::encode_utf8(dir), name)) == entry_text(dir, name),
{
    lemma_encode_last(dir);
    lemma_starts_relative(name);
    lemma_encode_slash(dir);
    lemma_encode_concat(dir, name);
    lemma_encode_concat(dir.push('/'), name);
    law_text_is_shown(entry_text(dir, name));
}

/// A separator at the end of a directory makes no difference to what is joined to it.
pub proof fn law_join_to_bare_directory(dir: Seq<char>, rest: Seq<u8>)
    requires
        is_directory(dir),
        rest.len() > 0 ==> rest[0] != 47,
    ensures
        joined(utf8::encode_utf8(bare(dir)), rest) == joined(utf8::encode_utf8(dir), rest),
{
    if dir.len() > 1 && dir.last() == '/' {
        lemma_ends_in_part(bare(dir));
        assert(dir =~= bare(dir).push('/'));
        lemma_encode_slash(bare(dir));
        lemma_encode_last(bare(dir));
        lemma_encode_last(dir);
    }
}

/// Names without a separator that lead to the same entry of a directory are the same.
pub proof fn law_join_is_injective(base: Seq<u8>, a: Seq<u8>, b: Seq<u8>)
    requires
        !a.contains(47),
        !b.contains(47),
        joined(base, a) == joined(base, b),
    ensures
        a == b,
{
    if a.len() > 0 {
        assert(a.contains(a[0]));
    }
    if b.len() > 0 {
        assert(b.contains(b[0]));
    }
    let head = if base.len() == 0 || base.last() == 47 {
        base
    } else {
        base.push(47)
    };
    assert(a =~= (head + a).skip(head.len() as int));
    assert(b =~= (head + b).skip(head.len() as int));
}

/// The last separator of a path that ends in a name without any.
proof fn lemma_last_slash(dir: Seq<char>, name: Seq<char>)
    requires
        !name.contains('/'),
    ensures
        last_slash(dir.push('/') + name) == dir.len(),
    decreases name.len(),
{
    let path = dir.push('/') + name;
    if name.len() == 0 {
        assert(path =~= dir.push('/'));
    } else {
        assert(name.contains(name.last()));
        assert(path.drop_last() =~= dir.push('/') + name.drop_last());
        assert forall|c: char| name.drop_last().contains(c) implies name.contains(c) by {
            let i = choose|i: int| 0 <= i < name.drop_last().len() && name.drop_last()[i] == c;
            assert(name[i] == c);
        }
        lemma_last_slash(dir, name.drop_last());
    }
}

/// A path whose last part is not empty does not end in a separator.
pub proof fn lemma_ends_in_part(path: Seq<char>)
    requires
        last_part(path).len() > 0,
    ensures
        path.len() > 0,
        path.last() != '/',
{
}

/// A name without a separator has none.
proof fn lemma_no_slash(name: Seq<char>)
    requires
        !name.contains('/'),
    ensures
        last_slash(name) == -1,
    decreases name.len(),
{
    if name.len() > 0 {
        assert(name.contains(name.last()));
        assert forall|c: char| name.drop_last().contains(c) implies name.contains(c) by {
            let i = choose|i: int| 0 <= i < name.drop_last().len() && name.drop_last()[i] == c;
            assert(name[i] == c);
        }
        lemma_no_slash(name.drop_last());
    }
}

/// A name in a directory has that directory for its parent, and itself for its name.
pub proof fn law_entry_of_directory(dir: Seq<char>, name: Seq<char>)
    requires
        is_directory(dir),
        is_plain(name),
        !name.contains('/'),
    ensures
        parent_of(entry_text(dir, name)) == Some(bare(dir)),
        name_of(entry_text(dir, name)) == Some(name),
{
    let path = entry_text(dir, name);
    let base = bare(dir);
    if dir.len() == 0 {
        lemma_no_slash(name);
        assert(path =~= name);
        assert(path.skip(0) =~= name);
        assert(dir =~= Seq::<char>::empty());
    } else if dir == seq!['/'] {
        let none = Seq::<char>::empty();
        assert(path =~= none.push('/') + name);
        lemma_last_slash(none, name);
        assert(path.skip(1) =~= name);
    } else {
        lemma_ends_in_part(base);
        assert(path =~= base.push('/') + name);
        lemma_last_slash(base, name);
        assert(path.skip(base.len() as int + 1) =~= name);
        assert(path.take(base.len() as int) =~= base);
    }
}

/// An absolute path joined to a directory stays what it is. A relative one comes after the
/// directory, with one separator between the two where the directory neither is empty nor
/// ends in one, and none where it is or does.
pub proof fn law_join(base: Seq<u8>, rest: Seq<u8>)
    ensures
        rest.len() > 0 && rest[0] == 47 ==> joined(base, rest) == rest,
        rest.len() == 0 || rest[0] != 47 ==> {
            &&& base.len() == 0 ==> joined(base, rest) == rest
            &&& base.len() > 0 && base.last() == 47 ==> joined(base, rest) == base + rest
            &&& base.len() > 0 && base.last() != 47 ==> joined(base, rest) == base + seq![47u8]
                + rest
        },
{
    assert(base.len() == 0 ==> base + rest =~= rest);
    assert(base.push(47) =~= base + seq![47u8]);
}

/// The entry of a directory that is given as text, where the directory does not end in a
/// separator and the name does not begin in one: the two with a separator between them.
pub proof fn law_join_text(dir: Seq<char>, name: Seq<char>)
    requires
        dir.len() > 0,
        dir.last() != '/',
        name.len() > 0 ==> name[0] != '/',
    ensures
        joined_text(utf8::encode_utf8(dir), name) == utf8::encode_utf8(dir + seq!['/'] + name),
        joined(utf8::encode_utf8(dir), utf8::encode_utf8(name)) == utf8::encode_utf8(
            dir + seq!['/'] + name,
        ),
{
    law_join_is_textual(dir, name);
    assert(dir.push('/') =~= dir + seq!['/']);
}

/// Paths are shown in full: as the text that they encode, where they encode one, and as std
/// replaces what is none elsewhere. Of a list of paths none is passed over.
pub proof fn law_shown(bytes: Seq<u8>, paths: Seq<Vec<u8>>)
    ensures
        utf8::valid_utf8(bytes) ==> utf8::encode_utf8(shown(bytes)) == bytes,
        !utf8::valid_utf8(bytes) ==> shown(bytes) == lossy_utf8(bytes),
        views(paths).len() == paths.len(),
        forall|i: int| 0 <= i < paths.len() ==> #[trigger] views(paths)[i] == paths[i]@,
{
    if utf8::valid_utf8(bytes) {
        utf8::decode_utf8_encode_utf8(bytes);
    }
}

} // verus!
