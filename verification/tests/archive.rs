use muzzle::archive::{
    gzip_file, gzip_stale_files_excluding, pattern_in, restore_changelog, restore_gz_file,
    store_archive, unpack_archive, Gzip, Restore, RestoreLog,
};
use muzzle::system::{FileReply, FileRequest, Step};
use std::collections::BTreeMap;

type Files = BTreeMap<Vec<u8>, Vec<u8>>;

/// A file system that can refuse to write.
struct Disk {
    files: Files,
    read_only: bool,
    log: Vec<&'static str>,
}

impl Disk {
    fn new(files: &[(&[u8], &[u8])]) -> Disk {
        Disk {
            files: files.iter().map(|(p, c)| (p.to_vec(), c.to_vec())).collect(),
            read_only: false,
            log: Vec::new(),
        }
    }

    fn answer(&mut self, request: FileRequest) -> FileReply {
        match request {
            FileRequest::Exists(p) => {
                self.log.push("exists");
                if self.files.contains_key(&p) {
                    FileReply::Yes
                } else {
                    FileReply::No
                }
            }
            FileRequest::Read(p) => {
                self.log.push("read");
                match self.files.get(&p) {
                    Some(c) => FileReply::Contents(c.clone()),
                    None => FileReply::No,
                }
            }
            FileRequest::Write(p, c) => {
                self.log.push("write");
                if self.read_only {
                    return FileReply::No;
                }
                self.files.insert(p, c);
                FileReply::Yes
            }
            FileRequest::Remove(p) => {
                self.log.push("remove");
                match self.files.remove(&p) {
                    Some(_) => FileReply::Yes,
                    None => FileReply::No,
                }
            }
        }
    }

    fn gzip(&mut self, path: &[u8]) -> bool {
        let mut state = Gzip::Begin;
        let mut reply = FileReply::No;
        loop {
            let (next, step) = gzip_file(path, state, reply);
            state = next;
            match step {
                Step::Ask(request) => reply = self.answer(request),
                Step::Done(ok) => return ok,
            }
        }
    }

    fn restore(&mut self, gz: &[u8], dest: &[u8]) -> bool {
        let mut state = Restore::Begin;
        let mut reply = FileReply::No;
        loop {
            let (next, step) = restore_gz_file(gz, dest, state, reply);
            state = next;
            match step {
                Step::Ask(request) => reply = self.answer(request),
                Step::Done(ok) => return ok,
            }
        }
    }

    fn restore_log(&mut self, gz: &[u8], dest: &[u8]) -> bool {
        let mut state = RestoreLog::Begin;
        let mut reply = FileReply::No;
        loop {
            let (next, step) = restore_changelog(gz, dest, state, reply);
            state = next;
            match step {
                Step::Ask(request) => reply = self.answer(request),
                Step::Done(ok) => return ok,
            }
        }
    }
}

#[test]
fn archives_round_trip() {
    for content in [&b""[..], b"one line\n", &[7u8; 100_000], b"\xff\x00\xfe"] {
        let mut disk = Disk::new(&[(b"/w/a.md", content)]);
        assert!(disk.gzip(b"/w/a.md"));
        assert_eq!(disk.files.keys().collect::<Vec<_>>(), vec![&b"/w/a.md.gz".to_vec()]);
        let archive = disk.files[&b"/w/a.md.gz".to_vec()].clone();
        assert_eq!(archive[..2], [0x1f, 0x8b]);
        assert!(disk.restore(b"/w/a.md.gz", b"/w/a.md"));
        assert_eq!(disk.files, Disk::new(&[(b"/w/a.md", content)]).files);
    }
}

#[test]
fn compressing_reads_writes_then_removes() {
    let mut disk = Disk::new(&[(b"/w/a.md", b"text")]);
    assert!(disk.gzip(b"/w/a.md"));
    assert_eq!(disk.log, vec!["read", "write", "remove"]);
}

#[test]
fn file_stays_where_its_archive_cannot_be_written() {
    let mut disk = Disk::new(&[(b"/w/a.md", b"text")]);
    disk.read_only = true;
    assert!(!disk.gzip(b"/w/a.md"));
    assert_eq!(disk.files, Disk::new(&[(b"/w/a.md", b"text")]).files);
}

#[test]
fn missing_file_is_not_compressed() {
    let mut disk = Disk::new(&[]);
    assert!(!disk.gzip(b"/w/a.md"));
    assert_eq!(disk.log, vec!["read"]);
}

#[test]
fn archive_of_a_path_that_is_no_text() {
    assert_eq!(
        store_archive(b"/w/\xff", Some(vec![1, 2])),
        (
            Gzip::Writing,
            Step::Ask(FileRequest::Write("/w/\u{fffd}.gz".as_bytes().to_vec(), vec![1, 2]))
        )
    );
    assert_eq!(store_archive(b"/w/a", None), (Gzip::Over(false), Step::Done(false)));
}

#[test]
fn present_file_stays_as_it_is() {
    let mut disk = Disk::new(&[(b"/w/a", b"new"), (b"/w/a.gz", b"whatever")]);
    assert!(disk.restore(b"/w/a.gz", b"/w/a"));
    assert_eq!(disk.log, vec!["exists"]);
    assert_eq!(disk.files.len(), 2);
}

#[test]
fn missing_archive_restores_nothing() {
    let mut disk = Disk::new(&[]);
    assert!(!disk.restore(b"/w/a.gz", b"/w/a"));
    assert_eq!(disk.log, vec!["exists", "read"]);
}

#[test]
fn corrupt_archive_is_removed() {
    for corrupt in [&b""[..], b"no archive", b"\x1f\x8b\x08\x00"] {
        let mut disk = Disk::new(&[(b"/w/a.gz", corrupt)]);
        assert!(!disk.restore(b"/w/a.gz", b"/w/a"));
        assert!(disk.files.is_empty());
    }
}

#[test]
fn unreadable_archive_is_removed() {
    assert_eq!(
        restore_gz_file(
            b"/w/a.gz",
            b"/w/a",
            Restore::Opening,
            FileReply::Unreadable(b"\x1f\x8b".to_vec())
        ),
        (Restore::Discarding, Step::Ask(FileRequest::Remove(b"/w/a.gz".to_vec())))
    );
    assert_eq!(
        restore_gz_file(b"/w/a.gz", b"/w/a", Restore::Discarding, FileReply::Yes),
        (Restore::Over(false), Step::Done(false))
    );
}

#[test]
fn archive_whose_start_is_enough_is_restored() {
    let mut disk = Disk::new(&[(b"/w/a", b"text")]);
    assert!(disk.gzip(b"/w/a"));
    let archive = disk.files[&b"/w/a.gz".to_vec()].clone();
    assert_eq!(
        restore_gz_file(b"/w/a.gz", b"/w/a", Restore::Opening, FileReply::Unreadable(archive)),
        (Restore::Writing, Step::Ask(FileRequest::Write(b"/w/a".to_vec(), b"text".to_vec())))
    );
}

#[test]
fn archive_stays_where_the_file_cannot_be_written() {
    let mut disk = Disk::new(&[(b"/w/a", b"text")]);
    assert!(disk.gzip(b"/w/a"));
    disk.read_only = true;
    assert!(!disk.restore(b"/w/a.gz", b"/w/a"));
    assert_eq!(disk.files.len(), 1);
    assert!(disk.files.contains_key(&b"/w/a.gz".to_vec()));
}

#[test]
fn unpacked_contents_are_written() {
    assert_eq!(
        unpack_archive(b"/w/a.gz", b"/w/a", Some(vec![9])),
        (Restore::Writing, Step::Ask(FileRequest::Write(b"/w/a".to_vec(), vec![9])))
    );
    assert_eq!(
        unpack_archive(b"/w/a.gz", b"/w/a", None),
        (Restore::Discarding, Step::Ask(FileRequest::Remove(b"/w/a.gz".to_vec())))
    );
}

#[test]
fn restoring_a_changelog_that_is_there_drops_its_archive() {
    let mut disk = Disk::new(&[(b"/w/a", b"new"), (b"/w/a.gz", b"old")]);
    assert!(disk.restore_log(b"/w/a.gz", b"/w/a"));
    assert_eq!(disk.files, Disk::new(&[(b"/w/a", b"new")]).files);
}

#[test]
fn restoring_a_changelog_from_its_archive() {
    let mut disk = Disk::new(&[(b"/w/a", b"text")]);
    assert!(disk.gzip(b"/w/a"));
    assert!(disk.restore_log(b"/w/a.gz", b"/w/a"));
    assert_eq!(disk.files, Disk::new(&[(b"/w/a", b"text")]).files);
    let mut empty = Disk::new(&[]);
    assert!(!empty.restore_log(b"/w/a.gz", b"/w/a"));
}

#[test]
fn patterns_are_written_out() {
    assert_eq!(pattern_in(b"/w", "log-*.md"), "/w/log-*.md");
    assert_eq!(pattern_in(b"/w\xff", "*"), "/w\u{fffd}/*");
    assert_eq!(pattern_in(b"/w", "/abs"), "/abs");
}

fn ids(all: &[&str]) -> Vec<String> {
    all.iter().map(|id| id.to_string()).collect()
}

#[test]
fn sessions_to_spare_keep_their_files() {
    let listing: Vec<Vec<u8>> = vec![
        b"log-one.md".to_vec(),
        b"log-two.md".to_vec(),
        b"log-three.md".to_vec(),
        b"log-\xfftwo.md".to_vec(),
        b"other".to_vec(),
    ];
    assert_eq!(
        gzip_stale_files_excluding(b"/w", "log-*.md", &ids(&["two", "three"]), Some(&listing)),
        vec![b"/w/log-one.md".to_vec(), b"/w/log-\xfftwo.md".to_vec()]
    );
    // An empty identifier spares nothing, nor does none.
    assert_eq!(
        gzip_stale_files_excluding(b"/w", "log-*.md", &ids(&[""]), Some(&listing)).len(),
        4
    );
    assert_eq!(gzip_stale_files_excluding(b"/w", "log-*.md", &[], Some(&listing)).len(), 4);
    assert_eq!(
        gzip_stale_files_excluding(b"/w", "log-*.md", &ids(&["two"]), None),
        Vec::<Vec<u8>>::new()
    );
}
