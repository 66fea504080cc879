use photiso::config::{compact_symbol, ConfigOptions};
use photiso::organizer::{
    organize, Action, FileFailure, OrganizeEvent, Organizer, Outcome, RunFailure, SetupError,
    SkipReason,
};
use photiso::photo_date_time::FileTime;
use std::collections::{BTreeMap, BTreeSet};

/// A filesystem in memory: file contents with a modification time, and directories.
struct MemFs {
    files: BTreeMap<Vec<u8>, (Vec<u8>, u64)>,
    dirs: BTreeSet<Vec<u8>>,
}

fn parent(p: &[u8]) -> Vec<u8> {
    let k = p.iter().rposition(|b| *b == b'/').unwrap();
    p[..k].to_vec()
}

impl MemFs {
    fn new() -> MemFs {
        let mut dirs = BTreeSet::new();
        for d in ["/in", "/out", "/dup"] {
            dirs.insert(d.as_bytes().to_vec());
        }
        MemFs { files: BTreeMap::new(), dirs }
    }

    fn add(&mut self, path: &str, contents: &[u8], secs: u64) {
        let p = path.as_bytes().to_vec();
        self.make_dirs(&parent(&p));
        self.files.insert(p, (contents.to_vec(), secs));
    }

    fn make_dirs(&mut self, d: &[u8]) {
        let mut d = d.to_vec();
        while !d.is_empty() && self.dirs.insert(d.clone()) {
            d = parent(&d);
        }
    }

    fn names(&self) -> Vec<String> {
        self.files.keys().map(|k| String::from_utf8(k.clone()).unwrap()).collect()
    }
}

struct Run {
    events: Vec<OrganizeEvent>,
    moves: usize,
}

/// Drives the engine against the filesystem; the handler answers `keep(i)` for the i-th event.
fn drive(fs: &mut MemFs, org: &mut Organizer, first: Action, keep: &dyn Fn(usize, &OrganizeEvent) -> bool) -> Run {
    let mut run = Run { events: Vec::new(), moves: 0 };
    let mut action = first;
    loop {
        let outcome = match action {
            Action::Emit(e) => {
                let k = keep(run.events.len(), &e);
                run.events.push(e);
                Outcome::Handled(k)
            }
            Action::ListDirectory(d) => {
                let files = fs.files.keys().filter(|f| parent(f) == d).cloned().collect();
                let dirs = fs.dirs.iter().filter(|x| x.len() > 1 && parent(x) == d).cloned().collect();
                Outcome::Listing { files, dirs }
            }
            Action::ReadFile(f) => {
                let (contents, secs) = fs.files[&f].clone();
                let t = FileTime { secs, nanos: 0 };
                Outcome::FileRead { created: t, modified: t, contents }
            }
            Action::Probe(p) => Outcome::Slot(fs.files.get(&p).map(|(c, _)| c.len() as u64)),
            Action::ReadOccupant(p) => Outcome::Contents(fs.files[&p].0.clone()),
            Action::Move { from, to } => {
                assert!(!fs.files.contains_key(&to), "a move would overwrite");
                let v = fs.files.remove(&from).unwrap();
                fs.make_dirs(&parent(&to));
                fs.files.insert(to, v);
                run.moves += 1;
                Outcome::Moved
            }
            Action::Done => return run,
            Action::Failed(f) => panic!("run failed: {:?}", f),
        };
        action = org.resume(outcome);
    }
}

fn start(fs: &mut MemFs, unorganized: &str) -> (Organizer, Run) {
    let u = unorganized.as_bytes().to_vec();
    let (mut org, first) = organize(
        u.clone(),
        b"/out".to_vec(),
        b"/dup".to_vec(),
        u,
        b"/out".to_vec(),
        b"/dup".to_vec(),
    )
    .unwrap();
    let run = drive(fs, &mut org, first, &|_, _| true);
    (org, run)
}

/// A JPEG whose EXIF data holds DateTimeOriginal and SubSecTimeOriginal.
fn jpeg_with_original(date: &[u8; 19], subsec: &[u8; 3]) -> Vec<u8> {
    let mut tiff: Vec<u8> = vec![b'M', b'M', 0, 42, 0, 0, 0, 8];
    tiff.extend_from_slice(&[0, 1, 0x87, 0x69, 0, 4, 0, 0, 0, 1, 0, 0, 0, 26, 0, 0, 0, 0]);
    tiff.extend_from_slice(&[0, 2, 0x90, 0x03, 0, 2, 0, 0, 0, 20, 0, 0, 0, 56]);
    tiff.extend_from_slice(&[0x92, 0x91, 0, 2, 0, 0, 0, 4]);
    tiff.extend_from_slice(subsec);
    tiff.extend_from_slice(&[0, 0, 0, 0, 0]);
    tiff.extend_from_slice(date);
    tiff.push(0);
    assert_eq!(tiff.len(), 76);
    let mut out = vec![0xFF, 0xD8, 0xFF, 0xE1];
    let len = (2 + 6 + tiff.len()) as u16;
    out.extend_from_slice(&len.to_be_bytes());
    out.extend_from_slice(b"Exif\0\0");
    out.extend_from_slice(&tiff);
    out.extend_from_slice(&[0xFF, 0xD9]);
    out
}

fn count(events: &[OrganizeEvent], f: fn(&OrganizeEvent) -> bool) -> usize {
    events.iter().filter(|e| f(e)).count()
}

// 2020-05-01 10:00:00 UTC
const MAY_FIRST: u64 = 1_588_327_200;

#[test]
fn exif_original_names_the_photo() {
    let mut fs = MemFs::new();
    fs.add("/in/a.jpg", &jpeg_with_original(b"2020:05:01 10:00:00", b"500"), 0);
    let (org, run) = start(&mut fs, "/in");
    assert_eq!(fs.names(), vec!["/out/2020/05/2020-05-01 10-00-00-500000000.jpg".to_string()]);
    assert_eq!(count(&run.events, |e| matches!(e, OrganizeEvent::PhotoMoved { .. })), 1);
    let r = org.result(0);
    assert_eq!((r.photos_moved, r.files, r.dirs), (1, 1, 1));
}

#[test]
fn identical_files_one_organized_one_duplicate() {
    let mut fs = MemFs::new();
    fs.add("/in/a.jpg", b"same bytes", MAY_FIRST);
    fs.add("/in/b.JPG", b"same bytes", MAY_FIRST);
    let (org, run) = start(&mut fs, "/in");
    let hash = String::from_utf8(photiso::file_hash::get_file_hash(b"same bytes")).unwrap();
    assert_eq!(
        fs.names(),
        vec![
            format!("/dup/2020/05/{}.jpg", hash),
            "/out/2020/05/2020-05-01 10-00-00-000000000.jpg".to_string(),
        ]
    );
    assert_eq!(count(&run.events, |e| matches!(e, OrganizeEvent::DuplicatePhotoMoved { .. })), 1);
    let r = org.result(0);
    assert_eq!((r.photos_moved, r.duplicate_photos_moved), (1, 1));
}

#[test]
fn third_identical_copy_takes_next_duplicate_number() {
    let mut fs = MemFs::new();
    for name in ["/in/a.jpg", "/in/b.jpg", "/in/c.jpg"] {
        fs.add(name, b"xyz", MAY_FIRST);
    }
    start(&mut fs, "/in");
    let hash = String::from_utf8(photiso::file_hash::get_file_hash(b"xyz")).unwrap();
    assert_eq!(
        fs.names(),
        vec![
            format!("/dup/2020/05/{}.001.jpg", hash),
            format!("/dup/2020/05/{}.jpg", hash),
            "/out/2020/05/2020-05-01 10-00-00-000000000.jpg".to_string(),
        ]
    );
}

#[test]
fn collision_with_different_contents_takes_next_number() {
    let mut fs = MemFs::new();
    fs.add("/in/a.jpg", b"first", MAY_FIRST);
    fs.add("/in/b.jpg", b"second", MAY_FIRST);
    fs.add("/in/c.jpg", b"third!", MAY_FIRST);
    start(&mut fs, "/in");
    assert_eq!(
        fs.names(),
        vec![
            "/out/2020/05/2020-05-01 10-00-00-000000000 001.jpg".to_string(),
            "/out/2020/05/2020-05-01 10-00-00-000000000 002.jpg".to_string(),
            "/out/2020/05/2020-05-01 10-00-00-000000000.jpg".to_string(),
        ]
    );
    let contents: BTreeSet<Vec<u8>> = fs.files.values().map(|(c, _)| c.clone()).collect();
    assert_eq!(contents.len(), 3);
}

#[test]
fn second_run_changes_nothing() {
    let mut fs = MemFs::new();
    fs.add("/in/a.jpg", b"first", MAY_FIRST);
    fs.add("/in/b.jpg", b"second", MAY_FIRST);
    fs.add("/in/sub/c.png", b"third", MAY_FIRST + 86_400 * 40);
    start(&mut fs, "/in");
    let before = fs.names();
    let (org, run) = start(&mut fs, "/out");
    assert_eq!(fs.names(), before);
    assert_eq!(run.moves, 0);
    let r = org.result(0);
    assert_eq!((r.photos_noop, r.photos_moved, r.duplicate_photos_moved), (3, 0, 0));
}

#[test]
fn in_place_run_organizes_and_is_stable() {
    let mut fs = MemFs::new();
    fs.add("/out/x/a.jpg", b"one", MAY_FIRST);
    start(&mut fs, "/out");
    assert_eq!(fs.names(), vec!["/out/2020/05/2020-05-01 10-00-00-000000000.jpg".to_string()]);
    let (_, run) = start(&mut fs, "/out");
    assert_eq!(run.moves, 0);
}

#[test]
fn non_photos_are_skipped_in_place() {
    let mut fs = MemFs::new();
    fs.add("/in/notes.txt", b"text", MAY_FIRST);
    fs.add("/in/noext", b"x", MAY_FIRST);
    let (org, run) = start(&mut fs, "/in");
    assert_eq!(fs.names(), vec!["/in/noext".to_string(), "/in/notes.txt".to_string()]);
    assert_eq!(
        count(&run.events, |e| matches!(
            e,
            OrganizeEvent::FileSkipped { reason: SkipReason::NotPhotoExtension, .. }
        )),
        2
    );
    assert_eq!(org.result(0).files_skipped, 2);
}

#[test]
fn bang_in_name_is_left_alone() {
    let mut fs = MemFs::new();
    fs.add("/in/keep!.jpg", b"photo", MAY_FIRST);
    let (org, run) = start(&mut fs, "/in");
    assert_eq!(fs.names(), vec!["/in/keep!.jpg".to_string()]);
    assert_eq!(
        count(&run.events, |e| matches!(
            e,
            OrganizeEvent::FileSkipped { reason: SkipReason::NameContainsBang, .. }
        )),
        1
    );
    assert_eq!(org.result(0).files_skipped, 1);
}

#[test]
fn files_before_subdirectories_in_byte_order() {
    let mut fs = MemFs::new();
    fs.add("/in/z.txt", b"1", 0);
    fs.add("/in/a/b.txt", b"2", 0);
    fs.add("/in/B.txt", b"3", 0);
    let (_, run) = start(&mut fs, "/in");
    let started: Vec<Vec<u8>> = run
        .events
        .iter()
        .filter_map(|e| match e {
            OrganizeEvent::FileStarted { file } => Some(file.clone()),
            OrganizeEvent::DirStarted { dir } => Some(dir.clone()),
            _ => None,
        })
        .collect();
    let expected: Vec<Vec<u8>> =
        ["/in", "/in/B.txt", "/in/z.txt", "/in/a", "/in/a/b.txt"].iter().map(|s| s.as_bytes().to_vec()).collect();
    assert_eq!(started, expected);
}

#[test]
fn duplicates_directory_inside_tree_is_skipped() {
    let mut fs = MemFs::new();
    fs.add("/all/dup/old.jpg", b"old", MAY_FIRST);
    let (mut org, first) = organize(
        b"/all".to_vec(),
        b"/all".to_vec(),
        b"/all/dup".to_vec(),
        b"all".to_vec(),
        b"all".to_vec(),
        b"all/dup".to_vec(),
    )
    .unwrap();
    let run = drive(&mut fs, &mut org, first, &|_, _| true);
    assert_eq!(fs.names(), vec!["/all/dup/old.jpg".to_string()]);
    assert!(run.events.iter().any(|e| matches!(
        e,
        OrganizeEvent::DirSkipped { dir, reason: SkipReason::DuplicatesDirectory } if dir == b"all/dup"
    )));
    assert_eq!(org.result(0).dirs_skipped, 1);
}

#[test]
fn events_use_the_callers_spelling() {
    let mut fs = MemFs::new();
    fs.add("/in/a.jpg", b"x", MAY_FIRST);
    let (mut org, first) = organize(
        b"/in".to_vec(),
        b"/out".to_vec(),
        b"/dup".to_vec(),
        b"photos".to_vec(),
        b"sorted".to_vec(),
        b"dups".to_vec(),
    )
    .unwrap();
    let run = drive(&mut fs, &mut org, first, &|_, _| true);
    assert!(run.events.iter().any(|e| matches!(
        e,
        OrganizeEvent::PhotoMoved { from, to }
            if from == b"photos/a.jpg" && to == b"sorted/2020/05/2020-05-01 10-00-00-000000000.jpg"
    )));
}

#[test]
fn cancel_stops_moves() {
    let mut fs = MemFs::new();
    fs.add("/in/a.jpg", b"one", MAY_FIRST);
    fs.add("/in/b.jpg", b"two", MAY_FIRST + 1);
    let (mut org, first) =
        organize(b"/in".to_vec(), b"/out".to_vec(), b"/dup".to_vec(), b"/in".to_vec(), b"/out".to_vec(), b"/dup".to_vec())
            .unwrap();
    let run = drive(&mut fs, &mut org, first, &|_, e| !matches!(e, OrganizeEvent::PhotoMoved { .. }));
    assert_eq!(run.moves, 1);
    assert!(fs.files.contains_key(&b"/in/b.jpg".to_vec()));
    assert_eq!(org.result(0).photos_moved, 1);
}

#[test]
fn read_failure_is_a_file_error() {
    let mut fs = MemFs::new();
    fs.add("/in/a.jpg", b"one", MAY_FIRST);
    let (mut org, first) =
        organize(b"/in".to_vec(), b"/out".to_vec(), b"/dup".to_vec(), b"/in".to_vec(), b"/out".to_vec(), b"/dup".to_vec())
            .unwrap();
    let mut action = first;
    let mut errors = 0;
    loop {
        action = match action {
            Action::Emit(e) => {
                if matches!(e, OrganizeEvent::FileError { .. }) {
                    errors += 1;
                }
                org.resume(Outcome::Handled(true))
            }
            Action::ListDirectory(_) => org.resume(Outcome::Listing { files: vec![b"/in/a.jpg".to_vec()], dirs: vec![] }),
            Action::ReadFile(_) => org.resume(Outcome::Failed("denied".to_string())),
            Action::Done => break,
            other => panic!("unexpected {:?}", other),
        };
    }
    assert_eq!(errors, 1);
    let r = org.result(0);
    assert_eq!((r.files_errored, r.files), (1, 1));
}

#[test]
fn duplicates_directory_must_differ() {
    let r = organize(b"/a".to_vec(), b"/b".to_vec(), b"/a".to_vec(), vec![], vec![], vec![]);
    assert_eq!(r.err(), Some(SetupError::UnorganizedIsDuplicates));
    let r = organize(b"/a".to_vec(), b"/b".to_vec(), b"/b".to_vec(), vec![], vec![], vec![]);
    assert_eq!(r.err(), Some(SetupError::OrganizedIsDuplicates));
}

#[test]
fn stop_on_error_option() {
    let stop = ConfigOptions { output: "compact".to_string(), stop_on_error: true };
    let go = ConfigOptions { output: "none".to_string(), stop_on_error: false };
    let err = OrganizeEvent::FileError { file: vec![], error: FileFailure::NoFreeSlot };
    let moved = OrganizeEvent::PhotoMoved { from: vec![], to: vec![] };
    assert!(!stop.keep_going(&err));
    assert!(stop.keep_going(&moved));
    assert!(go.keep_going(&err));
    assert_eq!(compact_symbol(&moved), Some('.'));
    assert_eq!(compact_symbol(&err), Some('!'));
    assert_eq!(compact_symbol(&OrganizeEvent::DirStarted { dir: vec![] }), None);
}

#[test]
fn time_out_of_range_is_a_file_error() {
    let mut fs = MemFs::new();
    fs.add("/in/a.jpg", b"one", u64::MAX);
    let (org, run) = start(&mut fs, "/in");
    assert!(run.events.iter().any(|e| matches!(
        e,
        OrganizeEvent::FileError { error: FileFailure::TimeOutOfRange, .. }
    )));
    assert_eq!(fs.names(), vec!["/in/a.jpg".to_string()]);
    assert_eq!(org.result(0).files_errored, 1);
}

#[test]
fn listing_failure_ends_the_run() {
    let (mut org, first) =
        organize(b"/in".to_vec(), b"/out".to_vec(), b"/dup".to_vec(), b"/in".to_vec(), b"/out".to_vec(), b"/dup".to_vec())
            .unwrap();
    assert!(matches!(first, Action::Emit(OrganizeEvent::DirStarted { .. })));
    let a = org.resume(Outcome::Handled(true));
    assert!(matches!(a, Action::ListDirectory(ref d) if d == b"/in"));
    let a = org.resume(Outcome::Failed("gone".to_string()));
    assert!(matches!(
        a,
        Action::Failed(RunFailure::Listing { ref dir, ref message }) if dir == b"/in" && message == "gone"
    ));
}

#[test]
fn mismatched_outcome_ends_the_run() {
    let (mut org, _) =
        organize(b"/in".to_vec(), b"/out".to_vec(), b"/dup".to_vec(), b"/in".to_vec(), b"/out".to_vec(), b"/dup".to_vec())
            .unwrap();
    let a = org.resume(Outcome::Moved);
    assert!(matches!(a, Action::Failed(RunFailure::UnexpectedOutcome)));
    assert!(matches!(org.resume(Outcome::Handled(true)), Action::Done));
}
