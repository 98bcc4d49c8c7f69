//! Logs that are put away compressed, and brought back.

use vstd::prelude::*;
use vstd::utf8;

use crate::glob;
use crate::path;
use crate::system::FileReply;
use crate::system::FileReplyView;
use crate::system::FileRequest;
use crate::system::FileRequestView;
use crate::system::Step;
use crate::text;

verus! {

// ---------------------------------------------------------------------------
// Compression
// ---------------------------------------------------------------------------

/// The archive that bytes are compressed to, if that works out.
pub uninterp spec fn gzipped(content: Seq<u8>) -> Option<Seq<u8>>;

/// The bytes that an archive holds, if it is one.
pub uninterp spec fn gunzipped(archive: Seq<u8>) -> Option<Seq<u8>>;

/// `flate2::write::GzEncoder` at the default level, `write_all` of everything and
/// `finish`. What the archive looks like [`gzipped`] only names; that it holds
/// what was written, [`gunzipped`] says. Whether the encoder can report an error
/// is left open.
#[verifier::external_body]
pub(crate) fn gzip(content: &[u8]) -> (archive: Option<Vec<u8>>)
    ensures
        match archive {
            Some(z) => gzipped(content@) == Some(z@) && gunzipped(z@) == Some(content@),
            None => gzipped(content@) is None,
        },
{
    let mut encoder = flate2::write::GzEncoder::new(Vec::new(), flate2::Compression::default());
    match std::io::Write::write_all(&mut encoder, content) {
        Ok(()) => encoder.finish().ok(),
        Err(_) => None,
    }
}

/// `flate2::read::GzDecoder`, read to the end: the bytes of the first member of an
/// archive, or nothing where the decoder reports an error. Which bytes those are
/// [`gunzipped`] only names.
#[verifier::external_body]
pub(crate) fn gunzip(archive: &[u8]) -> (content: Option<Vec<u8>>)
    ensures
        match content {
            Some(c) => gunzipped(archive@) == Some(c@),
            None => gunzipped(archive@) is None,
        },
{
    let mut content = Vec::new();
    match std::io::Read::read_to_end(&mut flate2::read::GzDecoder::new(archive), &mut content) {
        Ok(_) => Some(content),
        Err(_) => None,
    }
}

// ---------------------------------------------------------------------------
// Putting a file away
// ---------------------------------------------------------------------------

/// How far the compression of a file has come.
#[derive(Debug, PartialEq, Eq)]
pub enum Gzip {
    Begin,
    Reading,
    Writing,
    Removing,
    Over(bool),
}

/// Where the archive of a file goes.
pub open spec fn archive_path(file: Seq<u8>) -> Seq<u8> {
    utf8::encode_utf8(path::shown(file) + ".gz"@)
}

/// The next step once the contents of the file were compressed.
pub open spec fn store(file: Seq<u8>, archive: Option<Seq<u8>>) -> (
    Gzip,
    Step<FileRequestView, bool>,
) {
    match archive {
        Some(z) => (Gzip::Writing, Step::Ask(FileRequestView::Write(archive_path(file), z))),
        None => (Gzip::Over(false), Step::Done(false)),
    }
}

/// The compression of a file: it is read, its archive is written beside it, and
/// only then is it removed.
pub open spec fn gzip_step(file: Seq<u8>, state: Gzip, reply: FileReplyView) -> (
    Gzip,
    Step<FileRequestView, bool>,
) {
    match (state, reply) {
        (Gzip::Begin, _) => (Gzip::Reading, Step::Ask(FileRequestView::Read(file))),
        (Gzip::Reading, FileReplyView::Contents(content)) => store(file, gzipped(content)),
        (Gzip::Writing, FileReplyView::Yes) => (
            Gzip::Removing,
            Step::Ask(FileRequestView::Remove(file)),
        ),
        (Gzip::Removing, FileReplyView::Yes) => (Gzip::Over(true), Step::Done(true)),
        (Gzip::Over(ok), _) => (Gzip::Over(ok), Step::Done(ok)),
        _ => (Gzip::Over(false), Step::Done(false)),
    }
}

/// The next step once the contents of the file were compressed.
pub fn store_archive(file: &[u8], archive: Option<Vec<u8>>) -> (next: (
    Gzip,
    Step<FileRequest, bool>,
))
    ensures
        (next.0, next.1.deep_view()) == store(
            file@,
            match archive {
                Some(z) => Some(z@),
                None => None,
            },
        ),
{
    match archive {
        Some(z) => {
            let mut gz = path::from_utf8_lossy(file);
            gz.append(".gz");
            let gz_path: Vec<u8> = path::bytes_of(gz.as_str());
            (Gzip::Writing, Step::Ask(FileRequest::Write(gz_path, z)))
        },
        None => (Gzip::Over(false), Step::Done(false)),
    }
}

/// Compress a file. Each call takes the answer to what the call before asked for.
pub fn gzip_file(file: &[u8], state: Gzip, reply: FileReply) -> (next: (
    Gzip,
    Step<FileRequest, bool>,
))
    ensures
        (next.0, next.1.deep_view()) == gzip_step(file@, state, reply.deep_view()),
        // What is written holds the contents of the file: it is what restoring writes.
        state is Reading ==> (next.1 matches Step::Ask(FileRequest::Write(_, z)) ==> (reply
            matches FileReply::Contents(content) && gunzipped(z@) == Some(content@) && (forall|
            gz: Seq<u8>,
            dest: Seq<u8>,
        | #[trigger]
            restore_step(gz, dest, Restore::Opening, FileReplyView::Contents(z@)) == (
                Restore::Writing,
                Step::<FileRequestView, bool>::Ask(FileRequestView::Write(dest, content@)),
            )))),
{
    match (state, reply) {
        (Gzip::Begin, _) => (Gzip::Reading, Step::Ask(FileRequest::Read(path::copy_of(file)))),
        (Gzip::Reading, FileReply::Contents(content)) => store_archive(
            file,
            gzip(content.as_slice()),
        ),
        (Gzip::Writing, FileReply::Yes) => (
            Gzip::Removing,
            Step::Ask(FileRequest::Remove(path::copy_of(file))),
        ),
        (Gzip::Removing, FileReply::Yes) => (Gzip::Over(true), Step::Done(true)),
        (Gzip::Over(ok), _) => (Gzip::Over(ok), Step::Done(ok)),
        _ => (Gzip::Over(false), Step::Done(false)),
    }
}

// ---------------------------------------------------------------------------
// Bringing a file back
// ---------------------------------------------------------------------------

/// How far the restoring of a file from its archive has come.
#[derive(Debug, PartialEq, Eq)]
pub enum Restore {
    Begin,
    Checking,
    Opening,
    Writing,
    Discarding,
    Tidying,
    Over(bool),
}

/// The next step once the archive was unpacked. One that cannot be is corrupt and
/// goes.
pub open spec fn unpack(gz: Seq<u8>, dest: Seq<u8>, content: Option<Seq<u8>>) -> (
    Restore,
    Step<FileRequestView, bool>,
) {
    match content {
        Some(c) => (Restore::Writing, Step::Ask(FileRequestView::Write(dest, c))),
        None => (Restore::Discarding, Step::Ask(FileRequestView::Remove(gz))),
    }
}

/// The restoring of `dest` from the archive `gz`. A file that is there already
/// stays as it is; once the file is written, the archive goes. Of an archive that
/// cannot be read to its end, what could be read may be enough.
pub open spec fn restore_step(
    gz: Seq<u8>,
    dest: Seq<u8>,
    state: Restore,
    reply: FileReplyView,
) -> (Restore, Step<FileRequestView, bool>) {
    match (state, reply) {
        (Restore::Begin, _) => (Restore::Checking, Step::Ask(FileRequestView::Exists(dest))),
        (Restore::Checking, FileReplyView::Yes) => (Restore::Over(true), Step::Done(true)),
        (Restore::Checking, _) => (Restore::Opening, Step::Ask(FileRequestView::Read(gz))),
        (Restore::Opening, FileReplyView::Contents(archive)) => unpack(
            gz,
            dest,
            gunzipped(archive),
        ),
        (Restore::Opening, FileReplyView::Unreadable(start)) => unpack(
            gz,
            dest,
            gunzipped(start),
        ),
        (Restore::Writing, FileReplyView::Yes) => (
            Restore::Tidying,
            Step::Ask(FileRequestView::Remove(gz)),
        ),
        (Restore::Tidying, _) => (Restore::Over(true), Step::Done(true)),
        (Restore::Over(ok), _) => (Restore::Over(ok), Step::Done(ok)),
        _ => (Restore::Over(false), Step::Done(false)),
    }
}

/// The next step once the archive was unpacked.
pub fn unpack_archive(gz_path: &[u8], dest_path: &[u8], content: Option<Vec<u8>>) -> (next: (
    Restore,
    Step<FileRequest, bool>,
))
    ensures
        (next.0, next.1.deep_view()) == unpack(
            gz_path@,
            dest_path@,
            match content {
                Some(c) => Some(c@),
                None => None,
            },
        ),
{
    match content {
        Some(c) => (
            Restore::Writing,
            Step::Ask(FileRequest::Write(path::copy_of(dest_path), c)),
        ),
        None => (
            Restore::Discarding,
            Step::Ask(FileRequest::Remove(path::copy_of(gz_path))),
        ),
    }
}

/// Restore a file from its archive. Each call takes the answer to what the call
/// before asked for.
pub fn restore_gz_file(gz_path: &[u8], dest_path: &[u8], state: Restore, reply: FileReply) -> (next:
    (Restore, Step<FileRequest, bool>))
    ensures
        (next.0, next.1.deep_view()) == restore_step(
            gz_path@,
            dest_path@,
            state,
            reply.deep_view(),
        ),
{
    match (state, reply) {
        (Restore::Begin, _) => (
            Restore::Checking,
            Step::Ask(FileRequest::Exists(path::copy_of(dest_path))),
        ),
        (Restore::Checking, FileReply::Yes) => (Restore::Over(true), Step::Done(true)),
        (Restore::Checking, _) => (
            Restore::Opening,
            Step::Ask(FileRequest::Read(path::copy_of(gz_path))),
        ),
        (Restore::Opening, FileReply::Contents(archive)) => unpack_archive(
            gz_path,
            dest_path,
            gunzip(archive.as_slice()),
        ),
        (Restore::Opening, FileReply::Unreadable(start)) => unpack_archive(
            gz_path,
            dest_path,
            gunzip(start.as_slice()),
        ),
        (Restore::Writing, FileReply::Yes) => (
            Restore::Tidying,
            Step::Ask(FileRequest::Remove(path::copy_of(gz_path))),
        ),
        (Restore::Tidying, _) => (Restore::Over(true), Step::Done(true)),
        (Restore::Over(ok), _) => (Restore::Over(ok), Step::Done(ok)),
        _ => (Restore::Over(false), Step::Done(false)),
    }
}

/// How far the restoring of a changelog has come.
#[derive(Debug, PartialEq, Eq)]
pub enum RestoreLog {
    Begin,
    Checking,
    Dropping,
    Unpacking(Restore),
}

/// The restoring of a changelog: one that is still there stays, and its archive
/// goes; otherwise it is brought back from the archive.
pub open spec fn restore_log_step(
    gz: Seq<u8>,
    log: Seq<u8>,
    state: RestoreLog,
    reply: FileReplyView,
) -> (RestoreLog, Step<FileRequestView, bool>) {
    match (state, reply) {
        (RestoreLog::Begin, _) => (RestoreLog::Checking, Step::Ask(FileRequestView::Exists(log))),
        (RestoreLog::Checking, FileReplyView::Yes) => (
            RestoreLog::Dropping,
            Step::Ask(FileRequestView::Remove(gz)),
        ),
        (RestoreLog::Checking, _) => {
            let next = restore_step(gz, log, Restore::Begin, reply);
            (RestoreLog::Unpacking(next.0), next.1)
        },
        (RestoreLog::Dropping, _) => (RestoreLog::Unpacking(Restore::Over(true)), Step::Done(true)),
        (RestoreLog::Unpacking(inner), _) => {
            let next = restore_step(gz, log, inner, reply);
            (RestoreLog::Unpacking(next.0), next.1)
        },
    }
}

/// Restore a changelog. Each call takes the answer to what the call before asked
/// for.
pub fn restore_changelog(gz_path: &[u8], log_path: &[u8], state: RestoreLog, reply: FileReply) -> (
    next: (RestoreLog, Step<FileRequest, bool>))
    ensures
        (next.0, next.1.deep_view()) == restore_log_step(
            gz_path@,
            log_path@,
            state,
            reply.deep_view(),
        ),
{
    match (state, reply) {
        (RestoreLog::Begin, _) => (
            RestoreLog::Checking,
            Step::Ask(FileRequest::Exists(path::copy_of(log_path))),
        ),
        (RestoreLog::Checking, FileReply::Yes) => (
            RestoreLog::Dropping,
            Step::Ask(FileRequest::Remove(path::copy_of(gz_path))),
        ),
        (RestoreLog::Checking, reply) => {
            let (inner, step) = restore_gz_file(gz_path, log_path, Restore::Begin, reply);
            (RestoreLog::Unpacking(inner), step)
        },
        (RestoreLog::Dropping, _) => (RestoreLog::Unpacking(Restore::Over(true)), Step::Done(true)),
        (RestoreLog::Unpacking(inner), reply) => {
            let (inner, step) = restore_gz_file(gz_path, log_path, inner, reply);
            (RestoreLog::Unpacking(inner), step)
        },
    }
}

// ---------------------------------------------------------------------------
// Leftover files
// ---------------------------------------------------------------------------

/// The pattern for the files of a directory, written out.
pub open spec fn full_pattern(dir: Seq<u8>, pattern: Seq<char>) -> Seq<char> {
    path::shown(path::joined_text(dir, pattern))
}

/// A file name that carries the identifier of a session.
pub open spec fn belongs_to(name: Seq<u8>, session: Seq<char>) -> bool {
    session.len() > 0 && utf8::valid_utf8(name) && text::has_text(
        utf8::decode_utf8(name),
        session,
    )
}

/// A file name that carries the identifier of one of the sessions to spare.
pub open spec fn is_spared(name: Seq<u8>, spared: Seq<Seq<char>>) -> bool {
    exists|i: int| 0 <= i < spared.len() && belongs_to(name, #[trigger] spared[i])
}

/// The files to compress: those that match and do not belong to a session to spare.
pub open spec fn leftovers(
    dir: Seq<char>,
    name_pattern: Seq<char>,
    spared: Seq<Seq<char>>,
    names: Seq<Seq<u8>>,
) -> Seq<Seq<u8>> {
    glob::matches_in(dir, name_pattern, names.filter(|n: Seq<u8>| !is_spared(n, spared)))
}

/// The pattern for the files of a directory, written out.
pub fn pattern_in(dir: &[u8], pattern: &str) -> (full: String)
    ensures
        full@ == full_pattern(dir@, pattern@),
{
    path::from_utf8_lossy(path::join_text(dir, pattern).as_slice())
}

/// Whether a file name carries the identifier of a session.
fn is_of(name: &[u8], session: &str) -> (yes: bool)
    ensures
        yes == belongs_to(name@, session@),
{
    if session.is_empty() {
        return false;
    }
    match path::from_utf8(name) {
        Some(text) => text::contains(text.as_str(), session),
        None => false,
    }
}

/// Whether a file name carries the identifier of one of the sessions to spare.
fn is_of_any(name: &[u8], spared: &[String]) -> (yes: bool)
    ensures
        yes == is_spared(name@, spared.deep_view()),
{
    let ghost ids = spared.deep_view();
    let mut i: usize = 0;
    while i < spared.len()
        invariant
            i <= spared@.len(),
            ids == spared.deep_view(),
            forall|j: int| 0 <= j < i ==> !belongs_to(name@, #[trigger] ids[j]),
        decreases spared.len() - i,
    {
        assert(ids[i as int] == spared@[i as int]@);
        if is_of(name, spared[i].as_str()) {
            return true;
        }
        i = i + 1;
    }
    false
}

/// The files of a directory that match `pattern` and are to be compressed, given
/// the listing of the directory that [`pattern_in`] looks in; those of the sessions
/// `spared` stay. Where the directory cannot be read there are none.
pub fn gzip_stale_files_excluding(
    dir: &[u8],
    pattern: &str,
    spared: &[String],
    listing: Option<&[Vec<u8>]>,
) -> (files: Vec<Vec<u8>>)
    ensures
        match listing {
            Some(names) => {
                let full = full_pattern(dir@, pattern@);
                path::views(files@) == leftovers(
                    glob::pattern_dir(full),
                    glob::pattern_name(full),
                    spared.deep_view(),
                    path::views(names@),
                )
            },
            None => files@.len() == 0,
        },
{
    let full = pattern_in(dir, pattern);
    let names: &[Vec<u8>] = match listing {
        Some(names) => names,
        None => return Vec::new(),
    };
    let ghost all = path::views(names@);
    let ghost loose = |n: Seq<u8>| !is_spared(n, spared.deep_view());
    let mut kept: Vec<Vec<u8>> = Vec::new();
    let mut i: usize = 0;
    proof {
        reveal(Seq::filter);
        assert(path::views(kept@) =~= all.take(0).filter(loose));
    }
    while i < names.len()
        invariant
            i <= names@.len(),
            all == path::views(names@),
            loose == (|n: Seq<u8>| !is_spared(n, spared.deep_view())),
            path::views(kept@) == all.take(i as int).filter(loose),
        decreases names.len() - i,
    {
        let ghost before = path::views(kept@);
        proof {
            assert(all.take(i + 1) == all.take(i as int).push(all[i as int]));
            all.take(i as int).lemma_filter_push(all[i as int], loose);
        }
        if !is_of_any(names[i].as_slice(), spared) {
            let name: Vec<u8> = path::copy_of(names[i].as_slice());
            kept.push(name);
            assert(path::views(kept@) =~= before.push(name@));
        }
        i = i + 1;
    }
    assert(all.take(all.len() as int) == all);
    match glob::glob_matches(full.as_str(), Some(kept.as_slice())) {
        Ok(files) => files,
        Err(()) => Vec::new(),
    }
}

// ---------------------------------------------------------------------------
// Laws
// ---------------------------------------------------------------------------

/// A file is removed for its archive only once the archive was written.
pub proof fn law_removed_only_when_stored(
    file: Seq<u8>,
    state: Gzip,
    reply: FileReplyView,
    removed: Seq<u8>,
)
    requires
        gzip_step(file, state, reply).1 == Step::<FileRequestView, bool>::Ask(
            FileRequestView::Remove(removed),
        ),
    ensures
        removed == file && state is Writing && reply is Yes,
{
}

/// The bytes that were read of a file, to its end or until reading failed.
pub open spec fn bytes_read(reply: FileReplyView) -> Option<Seq<u8>> {
    match reply {
        FileReplyView::Contents(bytes) => Some(bytes),
        FileReplyView::Unreadable(bytes) => Some(bytes),
        _ => None,
    }
}

/// An archive is removed only once its contents were written, or when what can be read
/// of it cannot be unpacked.
pub proof fn law_archive_removed_only_when_used(
    gz: Seq<u8>,
    dest: Seq<u8>,
    state: Restore,
    reply: FileReplyView,
    removed: Seq<u8>,
)
    requires
        restore_step(gz, dest, state, reply).1 == Step::<FileRequestView, bool>::Ask(
            FileRequestView::Remove(removed),
        ),
    ensures
        removed == gz,
        (state is Writing && reply is Yes) || (state is Opening && (bytes_read(
            reply,
        ) matches Some(archive) && gunzipped(archive) is None)),
{
}

/// The restoring of a file after `n` answers, where `world` gives the answers.
pub open spec fn restored_after(
    world: spec_fn(FileRequestView) -> FileReplyView,
    gz: Seq<u8>,
    dest: Seq<u8>,
    n: nat,
) -> (Restore, Step<FileRequestView, bool>)
    decreases n,
{
    if n == 0 {
        restore_step(gz, dest, Restore::Begin, FileReplyView::No)
    } else {
        let before = restored_after(world, gz, dest, (n - 1) as nat);
        match before.1 {
            Step::Ask(q) => restore_step(gz, dest, before.0, world(q)),
            Step::Done(_) => before,
        }
    }
}

/// Whatever the system answers, restoring a file ends after at most four answers.
/// It succeeds exactly if the file is there already, or what can be read of its archive
/// can be unpacked and the contents written.
pub proof fn law_restore_succeeds(
    world: spec_fn(FileRequestView) -> FileReplyView,
    gz: Seq<u8>,
    dest: Seq<u8>,
)
    ensures
        restored_after(world, gz, dest, 4).1 == Step::<FileRequestView, bool>::Done(
            world(FileRequestView::Exists(dest)) is Yes || (bytes_read(
                world(FileRequestView::Read(gz)),
            ) matches Some(archive) && gunzipped(archive) is Some && world(
                FileRequestView::Write(dest, gunzipped(archive).unwrap()),
            ) is Yes),
        ),
{
    reveal_with_fuel(restored_after, 5);
}

/// A file that is there is neither written nor is its archive touched.
pub proof fn law_present_file_stays(gz: Seq<u8>, dest: Seq<u8>)
    ensures
        restore_step(gz, dest, Restore::Begin, FileReplyView::No) == (
            Restore::Checking,
            Step::<FileRequestView, bool>::Ask(FileRequestView::Exists(dest)),
        ),
        restore_step(gz, dest, Restore::Checking, FileReplyView::Yes).1 == Step::<
            FileRequestView,
            bool,
        >::Done(true),
{
}

/// A pattern for the files of a directory looks in that directory, for names that match
/// the pattern.
pub proof fn law_pattern_looks_in_directory(dir: Seq<char>, pattern: Seq<char>)
    requires
        path::is_directory(dir),
        path::is_plain(pattern),
        !pattern.contains('/'),
    ensures
        glob::pattern_dir(full_pattern(utf8::encode_utf8(dir), pattern)) == path::bare(dir),
        glob::pattern_name(full_pattern(utf8::encode_utf8(dir), pattern)) == pattern,
{
    assert(pattern.contains(pattern[0]));
    path::law_join_is_textual(dir, pattern);
    path::law_entry_of_directory(dir, pattern);
}

/// Every file that is compressed was listed, matches the pattern and does not
/// belong to a session to spare.
pub proof fn law_spared_sessions_keep_their_files(
    dir: Seq<char>,
    name_pattern: Seq<char>,
    spared: Seq<Seq<char>>,
    names: Seq<Seq<u8>>,
    file: Seq<u8>,
)
    requires
        leftovers(dir, name_pattern, spared, names).contains(file),
    ensures
        exists|name: Seq<u8>|
            {
                &&& #[trigger] names.contains(name)
                &&& glob::name_matches(name_pattern, path::shown(name))
                &&& !is_spared(name, spared)
                &&& file == path::joined(utf8::encode_utf8(dir), name)
            },
{
    let loose = |n: Seq<u8>| !is_spared(n, spared);
    let keep = |n: Seq<u8>| glob::name_matches(name_pattern, path::shown(n));
    let kept = names.filter(loose);
    let found = kept.filter(keep);
    let i = choose|i: int|
        0 <= i < leftovers(dir, name_pattern, spared, names).len() && leftovers(
            dir,
            name_pattern,
            spared,
            names,
        )[i] == file;
    let name = found[i];
    kept.lemma_filter_pred(keep, i);
    assert(found.contains(name));
    kept.lemma_filter_contains_rev(keep, name);
    let j = choose|j: int| 0 <= j < kept.len() && kept[j] == name;
    names.lemma_filter_pred(loose, j);
    names.lemma_filter_contains_rev(loose, name);
    assert(names.contains(name));
}

/// Every listed file that matches the pattern and does not belong to a session to spare
/// is compressed.
pub proof fn law_leftovers_are_compressed(
    dir: Seq<char>,
    name_pattern: Seq<char>,
    spared: Seq<Seq<char>>,
    names: Seq<Seq<u8>>,
    name: Seq<u8>,
)
    requires
        names.contains(name),
        glob::name_matches(name_pattern, path::shown(name)),
        !is_spared(name, spared),
    ensures
        leftovers(dir, name_pattern, spared, names).contains(
            path::joined(utf8::encode_utf8(dir), name),
        ),
{
    let loose = |n: Seq<u8>| !is_spared(n, spared);
    let keep = |n: Seq<u8>| glob::name_matches(name_pattern, path::shown(n));
    let kept = names.filter(loose);
    let i = choose|i: int| 0 <= i < names.len() && names[i] == name;
    names.lemma_filter_contains(loose, i);
    let j = choose|j: int| 0 <= j < kept.len() && kept[j] == name;
    kept.lemma_filter_contains(keep, j);
    let found = kept.filter(keep);
    let k = choose|k: int| 0 <= k < found.len() && found[k] == name;
    assert(leftovers(dir, name_pattern, spared, names)[k] == path::joined(
        utf8::encode_utf8(dir),
        name,
    ));
}

/// Which files are compressed is decided one by one, and their order is kept. A name that
/// is text is left out if it has the identifier of a session to spare in it, whatever the
/// length of either, or if it does not match; otherwise its file is compressed. A name that
/// is no text has no identifier in it.
pub proof fn law_leftovers_one_by_one(
    dir: Seq<char>,
    name_pattern: Seq<char>,
    spared: Seq<Seq<char>>,
    a: Seq<Seq<u8>>,
    b: Seq<Seq<u8>>,
    name: Seq<char>,
    bytes: Seq<u8>,
)
    ensures
        leftovers(dir, name_pattern, spared, Seq::empty()) == Seq::<Seq<u8>>::empty(),
        leftovers(dir, name_pattern, spared, a + b) == leftovers(dir, name_pattern, spared, a)
            + leftovers(dir, name_pattern, spared, b),
        (exists|i: int|
            0 <= i < spared.len() && (#[trigger] spared[i]).len() > 0 && text::has_text(
                name,
                spared[i],
            )) ==> leftovers(dir, name_pattern, spared, seq![utf8::encode_utf8(name)]) == Seq::<
            Seq<u8>,
        >::empty(),
        (forall|i: int|
            0 <= i < spared.len() && (#[trigger] spared[i]).len() > 0 ==> !text::has_text(
                name,
                spared[i],
            )) ==> leftovers(dir, name_pattern, spared, seq![utf8::encode_utf8(name)])
            == if glob::name_matches(name_pattern, name) {
            seq![path::joined(utf8::encode_utf8(dir), utf8::encode_utf8(name))]
        } else {
            Seq::empty()
        },
        !utf8::valid_utf8(bytes) ==> leftovers(dir, name_pattern, spared, seq![bytes])
            == if glob::name_matches(name_pattern, path::shown(bytes)) {
            seq![path::joined(utf8::encode_utf8(dir), bytes)]
        } else {
            Seq::empty()
        },
{
    let loose = |n: Seq<u8>| !is_spared(n, spared);
    let n = utf8::encode_utf8(name);
    let none = Seq::<Seq<u8>>::empty();
    path::law_text_is_shown(name);
    utf8::encode_utf8_valid_utf8(name);
    utf8::encode_utf8_decode_utf8(name);
    Seq::filter_distributes_over_add(a, b, loose);
    glob::law_matches_one_by_one(dir, name_pattern, a.filter(loose), b.filter(loose), n);
    glob::law_matches_one_by_one(dir, name_pattern, none, none, bytes);
    glob::lemma_filter_one(n, loose);
    glob::lemma_filter_one(bytes, loose);
    if exists|i: int|
        0 <= i < spared.len() && (#[trigger] spared[i]).len() > 0 && text::has_text(
            name,
            spared[i],
        ) {
        let i = choose|i: int|
            0 <= i < spared.len() && (#[trigger] spared[i]).len() > 0 && text::has_text(
                name,
                spared[i],
            );
        assert(belongs_to(n, spared[i]));
    }
}

/// A file whose name has the identifier of a session to spare in it is never among those to
/// compress, whatever the length of the identifier and whatever else is listed.
pub proof fn law_spared_names_stay(
    dir: Seq<char>,
    name_pattern: Seq<char>,
    spared: Seq<Seq<char>>,
    names: Seq<Seq<u8>>,
    id: Seq<char>,
    name: Seq<char>,
)
    requires
        spared.contains(id),
        id.len() > 0,
        text::has_text(name, id),
        !utf8::encode_utf8(name).contains(47),
        // Names that a directory lists hold no separator.
        forall|i: int| 0 <= i < names.len() ==> !(#[trigger] names[i]).contains(47),
    ensures
        !leftovers(dir, name_pattern, spared, names).contains(
            path::joined(utf8::encode_utf8(dir), utf8::encode_utf8(name)),
        ),
{
    let file = path::joined(utf8::encode_utf8(dir), utf8::encode_utf8(name));
    if leftovers(dir, name_pattern, spared, names).contains(file) {
        law_spared_sessions_keep_their_files(dir, name_pattern, spared, names, file);
        let other = choose|other: Seq<u8>|
            {
                &&& #[trigger] names.contains(other)
                &&& glob::name_matches(name_pattern, path::shown(other))
                &&& !is_spared(other, spared)
                &&& file == path::joined(utf8::encode_utf8(dir), other)
            };
        path::law_join_is_injective(utf8::encode_utf8(dir), other, utf8::encode_utf8(name));
        utf8::encode_utf8_valid_utf8(name);
        utf8::encode_utf8_decode_utf8(name);
        let i = choose|i: int| 0 <= i < spared.len() && spared[i] == id;
        assert(belongs_to(other, spared[i]));
    }
}

/// The pattern for the files of a directory is the directory, a separator and the pattern.
pub proof fn law_full_pattern(dir: Seq<char>, pattern: Seq<char>)
    requires
        dir.len() > 0,
        dir.last() != '/',
        pattern.len() > 0 ==> pattern[0] != '/',
    ensures
        full_pattern(utf8::encode_utf8(dir), pattern) == dir + seq!['/'] + pattern,
{
    path::law_join_is_textual(dir, pattern);
    assert(dir.push('/') =~= dir + seq!['/']);
}

/// How far the compression of a file has come after `n` answers, and what was asked for.
/// What is asked for as the `k`th thing, counted from 0, `world` answers.
pub open spec fn gzip_run(
    world: spec_fn(nat, FileRequestView) -> FileReplyView,
    file: Seq<u8>,
    n: nat,
) -> (Gzip, Step<FileRequestView, bool>, Seq<FileRequestView>)
    decreases n,
{
    if n == 0 {
        let first = gzip_step(file, Gzip::Begin, FileReplyView::No);
        (first.0, first.1, Seq::empty())
    } else {
        let before = gzip_run(world, file, (n - 1) as nat);
        match before.1 {
            Step::Ask(request) => {
                let after = gzip_step(file, before.0, world((n - 1) as nat, request));
                (after.0, after.1, before.2.push(request))
            },
            Step::Done(_) => before,
        }
    }
}

/// To compress a file is to read it, to write its archive under its name with `.gz` after
/// it, and then to remove it, in that order and as far as each works out. It succeeds
/// exactly if all of it does.
pub proof fn law_gzip(world: spec_fn(nat, FileRequestView) -> FileReplyView, file: Seq<u8>)
    ensures
        ({
            let run = gzip_run(world, file, 3);
            let read = FileRequestView::Read(file);
            let remove = FileRequestView::Remove(file);
            match world(0, read) {
                FileReplyView::Contents(content) => match gzipped(content) {
                    Some(archive) => {
                        let write = FileRequestView::Write(
                            utf8::encode_utf8(path::shown(file) + ".gz"@),
                            archive,
                        );
                        if world(1, write) is Yes {
                            &&& run.2 == seq![read, write, remove]
                            &&& run.1 == Step::<FileRequestView, bool>::Done(
                                world(2, remove) is Yes,
                            )
                        } else {
                            &&& run.2 == seq![read, write]
                            &&& run.1 == Step::<FileRequestView, bool>::Done(false)
                        }
                    },
                    None => run.2 == seq![read] && run.1 == Step::<FileRequestView, bool>::Done(
                        false,
                    ),
                },
                _ => run.2 == seq![read] && run.1 == Step::<FileRequestView, bool>::Done(false),
            }
        }),
{
    reveal_with_fuel(gzip_run, 4);
    let run = gzip_run(world, file, 3);
    let read = FileRequestView::Read(file);
    let none = Seq::<FileRequestView>::empty();
    assert(none.push(read) =~= seq![read]);
    if let FileReplyView::Contents(content) = world(0, read) {
        if let Some(archive) = gzipped(content) {
            let write = FileRequestView::Write(
                utf8::encode_utf8(path::shown(file) + ".gz"@),
                archive,
            );
            assert(none.push(read).push(write) =~= seq![read, write]);
            assert(none.push(read).push(write).push(FileRequestView::Remove(file)) =~= seq![
                read,
                write,
                FileRequestView::Remove(file),
            ]);
        }
    }
}

/// How far the restoring of a file has come after `n` answers, and what was asked for.
pub open spec fn restore_run(
    world: spec_fn(nat, FileRequestView) -> FileReplyView,
    gz: Seq<u8>,
    dest: Seq<u8>,
    n: nat,
) -> (Restore, Step<FileRequestView, bool>, Seq<FileRequestView>)
    decreases n,
{
    if n == 0 {
        let first = restore_step(gz, dest, Restore::Begin, FileReplyView::No);
        (first.0, first.1, Seq::empty())
    } else {
        let before = restore_run(world, gz, dest, (n - 1) as nat);
        match before.1 {
            Step::Ask(request) => {
                let after = restore_step(gz, dest, before.0, world((n - 1) as nat, request));
                (after.0, after.1, before.2.push(request))
            },
            Step::Done(_) => before,
        }
    }
}

/// To restore a file is to see whether it is there; if not, to read its archive and to
/// write what that holds; and then to remove the archive, which also goes where it cannot
/// be unpacked. It succeeds exactly if the file was there or was written.
pub proof fn law_restore(
    world: spec_fn(nat, FileRequestView) -> FileReplyView,
    gz: Seq<u8>,
    dest: Seq<u8>,
)
    ensures
        ({
            let run = restore_run(world, gz, dest, 4);
            let exists = FileRequestView::Exists(dest);
            let read = FileRequestView::Read(gz);
            let remove = FileRequestView::Remove(gz);
            let bytes = match world(1, read) {
                FileReplyView::Contents(bytes) => Some(bytes),
                FileReplyView::Unreadable(bytes) => Some(bytes),
                _ => None,
            };
            if world(0, exists) is Yes {
                run.2 == seq![exists] && run.1 == Step::<FileRequestView, bool>::Done(true)
            } else if bytes is None {
                run.2 == seq![exists, read] && run.1 == Step::<FileRequestView, bool>::Done(false)
            } else {
                match gunzipped(bytes.unwrap()) {
                    Some(content) => {
                        let write = FileRequestView::Write(dest, content);
                        if world(2, write) is Yes {
                            &&& run.2 == seq![exists, read, write, remove]
                            &&& run.1 == Step::<FileRequestView, bool>::Done(true)
                        } else {
                            &&& run.2 == seq![exists, read, write]
                            &&& run.1 == Step::<FileRequestView, bool>::Done(false)
                        }
                    },
                    None => {
                        &&& run.2 == seq![exists, read, remove]
                        &&& run.1 == Step::<FileRequestView, bool>::Done(false)
                    },
                }
            }
        }),
{
    reveal_with_fuel(restore_run, 5);
    let none = Seq::<FileRequestView>::empty();
    let exists = FileRequestView::Exists(dest);
    let read = FileRequestView::Read(gz);
    let remove = FileRequestView::Remove(gz);
    assert(none.push(exists) =~= seq![exists]);
    assert(none.push(exists).push(read) =~= seq![exists, read]);
    assert(none.push(exists).push(read).push(remove) =~= seq![exists, read, remove]);
    if let Some(bytes) = bytes_read(world(1, read)) {
        if let Some(content) = gunzipped(bytes) {
            let write = FileRequestView::Write(dest, content);
            assert(none.push(exists).push(read).push(write) =~= seq![exists, read, write]);
            assert(none.push(exists).push(read).push(write).push(remove) =~= seq![
                exists,
                read,
                write,
                remove,
            ]);
        }
    }
}

/// How far the restoring of a changelog has come after `n` answers, and what was asked for.
pub open spec fn restore_log_run(
    world: spec_fn(nat, FileRequestView) -> FileReplyView,
    gz: Seq<u8>,
    log: Seq<u8>,
    n: nat,
) -> (RestoreLog, Step<FileRequestView, bool>, Seq<FileRequestView>)
    decreases n,
{
    if n == 0 {
        let first = restore_log_step(gz, log, RestoreLog::Begin, FileReplyView::No);
        (first.0, first.1, Seq::empty())
    } else {
        let before = restore_log_run(world, gz, log, (n - 1) as nat);
        match before.1 {
            Step::Ask(request) => {
                let after = restore_log_step(gz, log, before.0, world((n - 1) as nat, request));
                (after.0, after.1, before.2.push(request))
            },
            Step::Done(_) => before,
        }
    }
}

/// A changelog that is there stays and its archive goes, which counts as a success however
/// that works out. One that is not there is restored as any file is.
pub proof fn law_restore_log(
    world: spec_fn(nat, FileRequestView) -> FileReplyView,
    gz: Seq<u8>,
    log: Seq<u8>,
)
    ensures
        world(0, FileRequestView::Exists(log)) is Yes ==> {
            let run = restore_log_run(world, gz, log, 2);
            &&& run.2 == seq![FileRequestView::Exists(log), FileRequestView::Remove(gz)]
            &&& run.1 == Step::<FileRequestView, bool>::Done(true)
        },
        world(0, FileRequestView::Exists(log)) !is Yes ==> {
            let run = restore_log_run(world, gz, log, 5);
            let rest = restore_run(
                |k: nat, request: FileRequestView| world(k + 1, request),
                gz,
                log,
                4,
            );
            &&& run.2 == seq![FileRequestView::Exists(log)] + rest.2
            &&& run.1 == rest.1
        },
{
    let exists = FileRequestView::Exists(log);
    let none = Seq::<FileRequestView>::empty();
    if world(0, exists) is Yes {
        reveal_with_fuel(restore_log_run, 3);
        assert(none.push(exists).push(FileRequestView::Remove(gz)) =~= seq![
            exists,
            FileRequestView::Remove(gz),
        ]);
    } else {
        lemma_restore_log(world, gz, log, 4);
    }
}

/// Restoring a changelog that is not there goes as restoring any file does.
proof fn lemma_restore_log(
    world: spec_fn(nat, FileRequestView) -> FileReplyView,
    gz: Seq<u8>,
    log: Seq<u8>,
    n: nat,
)
    requires
        world(0, FileRequestView::Exists(log)) !is Yes,
    ensures
        ({
            let later = |k: nat, request: FileRequestView| world(k + 1, request);
            let run = restore_log_run(world, gz, log, n + 1);
            let rest = restore_run(later, gz, log, n);
            &&& run.0 == RestoreLog::Unpacking(rest.0)
            &&& run.1 == rest.1
            &&& run.2 == seq![FileRequestView::Exists(log)] + rest.2
        }),
    decreases n,
{
    let later = |k: nat, request: FileRequestView| world(k + 1, request);
    let exists = FileRequestView::Exists(log);
    let none = Seq::<FileRequestView>::empty();
    if n == 0 {
        reveal_with_fuel(restore_log_run, 2);
        assert(none.push(exists) =~= seq![exists] + none);
    } else {
        lemma_restore_log(world, gz, log, (n - 1) as nat);
        let before = restore_run(later, gz, log, (n - 1) as nat);
        if let Step::Ask(request) = before.1 {
            assert((seq![exists] + before.2).push(request) =~= seq![exists] + before.2.push(
                request,
            ));
        }
    }
}

} // verus!
