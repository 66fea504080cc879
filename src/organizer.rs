//! The organize engine. It walks the unorganized tree, picks each photo's
//! destination and settles name collisions and duplicates. It does no I/O of
//! its own: each step hands the caller an `Action` to perform, and the caller
//! hands back the `Outcome`.
use crate::datetime::PhotoDateTime;
use crate::file_hash::{are_same_file_contents, content_hash, MAX_DIGEST_INPUT};
use crate::listing::{is_sorted, sorted};
use crate::paths::{
    decry_path, duplicate_path, equals_word, extension, get_duplicate_photo_path, get_organized_photo_path,
    is_excluded_file, is_excluded_path, is_photo_file, is_photo_path, organized_path, relayed,
    to_owned_bytes,
};
use crate::exif_time::ExifTimes;
use crate::photo_date_time::{FileTime, PhotoDateTimeInfo};
use vstd::prelude::*;

verus! {

/// Why a file or directory was left alone.
#[derive(Clone, Copy, Debug, PartialEq, Eq, Structural)]
pub enum SkipReason {
    NotPhotoExtension,
    NameContainsBang,
    DuplicatesDirectory,
}

impl SkipReason {
    pub fn message(&self) -> &'static str {
        match self {
            SkipReason::NotPhotoExtension => "File does not have a photo extension.",
            SkipReason::NameContainsBang => "File name contains '!'.",
            SkipReason::DuplicatesDirectory => "Directory is the duplicates directory.",
        }
    }
}

/// What went wrong with one file.
#[derive(Debug)]
pub enum FileFailure {
    /// The filesystem refused an operation; the text says why.
    Io(String),
    /// A filesystem timestamp lies beyond the supported calendar range.
    TimeOutOfRange,
    /// The file is too large to hash.
    TooLarge,
    /// Every conflict number is taken.
    NoFreeSlot,
}

/// An event raised as photos are organized. Paths are spelled under the
/// directories the caller supplied.
#[derive(Debug)]
pub enum OrganizeEvent {
    /// Processing an unorganized directory starts.
    DirStarted { dir: Vec<u8> },
    /// Processing an unorganized directory finishes.
    DirFinished { dir: Vec<u8> },
    /// A directory is skipped.
    DirSkipped { dir: Vec<u8>, reason: SkipReason },
    /// Processing an unorganized file starts.
    FileStarted { file: Vec<u8> },
    /// Processing an unorganized file finishes.
    FileFinished { file: Vec<u8> },
    /// A file is skipped.
    FileSkipped { file: Vec<u8>, reason: SkipReason },
    /// Processing a file failed.
    FileError { file: Vec<u8>, error: FileFailure },
    /// A photo is moved to its organized location.
    PhotoMoved { from: Vec<u8>, to: Vec<u8> },
    /// A duplicate photo is moved to its duplicates location.
    DuplicatePhotoMoved { from: Vec<u8>, to: Vec<u8> },
    /// A photo is already at its organized location.
    PhotoNoOp { file: Vec<u8> },
}

/// Another name for `OrganizeEvent`.
pub type PhotisoEvent = OrganizeEvent;

/// Counts of what one run did.
#[derive(Clone, Copy, Debug, PartialEq, Eq, Structural)]
pub struct OrganizeCounters {
    pub dirs: u64,
    pub dirs_skipped: u64,
    pub files: u64,
    pub files_skipped: u64,
    pub files_errored: u64,
    pub photos_moved: u64,
    pub duplicate_photos_moved: u64,
    pub photos_noop: u64,
}

impl OrganizeCounters {
    /// All counts at zero.
    pub open spec fn zero() -> OrganizeCounters {
        OrganizeCounters {
            dirs: 0,
            dirs_skipped: 0,
            files: 0,
            files_skipped: 0,
            files_errored: 0,
            photos_moved: 0,
            duplicate_photos_moved: 0,
            photos_noop: 0,
        }
    }

    pub fn new() -> (r: OrganizeCounters)
        ensures
            r == OrganizeCounters::zero(),
    {
        OrganizeCounters {
            dirs: 0,
            dirs_skipped: 0,
            files: 0,
            files_skipped: 0,
            files_errored: 0,
            photos_moved: 0,
            duplicate_photos_moved: 0,
            photos_noop: 0,
        }
    }

    /// No count is below its value in `earlier`.
    pub open spec fn covers(&self, earlier: OrganizeCounters) -> bool {
        &&& self.dirs >= earlier.dirs
        &&& self.dirs_skipped >= earlier.dirs_skipped
        &&& self.files >= earlier.files
        &&& self.files_skipped >= earlier.files_skipped
        &&& self.files_errored >= earlier.files_errored
        &&& self.photos_moved >= earlier.photos_moved
        &&& self.duplicate_photos_moved >= earlier.duplicate_photos_moved
        &&& self.photos_noop >= earlier.photos_noop
    }
}

/// The tally of a run.
#[derive(Clone, Copy, Debug, PartialEq, Eq, Structural)]
pub struct OrganizeResult {
    pub dirs: u64,
    pub dirs_skipped: u64,
    pub files: u64,
    pub files_skipped: u64,
    pub files_errored: u64,
    pub photos_moved: u64,
    pub duplicate_photos_moved: u64,
    pub photos_noop: u64,
    /// Wall-clock time of the run, in nanoseconds.
    pub duration_nanos: u64,
}

/// Adds one to a counter, which stays at its largest value.
pub fn increment(c: &mut u64)
    ensures
        *final(c) == if *old(c) < u64::MAX {
            (*old(c) + 1) as u64
        } else {
            *old(c)
        },
{
    if *c < u64::MAX {
        *c = *c + 1;
    }
}

/// A count after one more: one up, unless already at its largest value.
pub open spec fn inc(x: u64) -> u64 {
    if x < u64::MAX {
        (x + 1) as u64
    } else {
        x
    }
}

/// Why a run could not start.
#[derive(Clone, Copy, Debug, PartialEq, Eq, Structural)]
pub enum SetupError {
    /// The unorganized and duplicates directories are the same directory.
    UnorganizedIsDuplicates,
    /// The organized and duplicates directories are the same directory.
    OrganizedIsDuplicates,
}

/// What the caller is to do next.
#[derive(Debug)]
pub enum Action {
    /// Hand the event to the event handler; answer `Handled` with what it returned.
    Emit(OrganizeEvent),
    /// List the directory; answer `Listing` with the full paths of its regular
    /// files and of its subdirectories.
    ListDirectory(Vec<u8>),
    /// Read the file; answer `FileRead` with its timestamps and contents.
    ReadFile(Vec<u8>),
    /// Look at the destination; answer `Slot`: `None` when nothing is there,
    /// else the length of the file that is.
    Probe(Vec<u8>),
    /// Read the file at the destination; answer `Contents`.
    ReadOccupant(Vec<u8>),
    /// Create the missing directories above `to`, then move `from` to `to`;
    /// answer `Moved`.
    Move { from: Vec<u8>, to: Vec<u8> },
    /// The run is over.
    Done,
    /// The run stopped on an error.
    Failed(RunFailure),
}

/// Why a run stopped before its end.
#[derive(Debug)]
pub enum RunFailure {
    /// A directory could not be listed; the text says why.
    Listing { dir: Vec<u8>, message: String },
    /// The outcome handed back does not answer the last action.
    UnexpectedOutcome,
}

/// What came of an action. `Failed` answers any action that did not succeed.
pub enum Outcome {
    Handled(bool),
    Listing { files: Vec<Vec<u8>>, dirs: Vec<Vec<u8>> },
    FileRead { created: FileTime, modified: FileTime, contents: Vec<u8> },
    Slot(Option<u64>),
    Contents(Vec<u8>),
    Moved,
    Failed(String),
}

/// Work the walk has still to do.
pub enum Task {
    VisitDir(Vec<u8>),
    ListDir(Vec<u8>),
    FinishDir(Vec<u8>),
    VisitFile(Vec<u8>),
    CheckFile(Vec<u8>),
}

/// A photo on its way to a destination.
pub struct FileJob {
    pub source: Vec<u8>,
    pub contents: Vec<u8>,
    pub when: PhotoDateTime,
    pub conflict: u32,
    /// The content hash, once the photo is known to duplicate the file at its
    /// organized destination.
    pub hash: Option<Vec<u8>>,
}

/// The outcome the engine waits for.
pub enum Waiting {
    Handled,
    Listing(Vec<u8>),
    FileRead(Vec<u8>),
    Slot(Vec<u8>),
    Occupant(Vec<u8>),
    Move(Vec<u8>),
    Over,
}

/// A run of the engine: the directories, the counters, the cancellation
/// flag, the work still pending, and the photo in progress.
pub struct Organizer {
    /// The directories as the caller spelled them.
    pub lay_unorganized_dir: Vec<u8>,
    pub lay_organized_dir: Vec<u8>,
    pub lay_duplicates_dir: Vec<u8>,
    /// The same directories, canonicalized.
    pub unorganized_dir: Vec<u8>,
    pub organized_dir: Vec<u8>,
    pub duplicates_dir: Vec<u8>,
    pub counters: OrganizeCounters,
    pub canceled: bool,
    /// Pending work; the last entry comes first.
    pub tasks: Vec<Task>,
    /// Events to hand out, in order, before anything else.
    pub outbox: Vec<OrganizeEvent>,
    pub job: Option<FileJob>,
    pub waiting: Waiting,
}

/// The pending work after listing `dir`: the end of `dir` below its
/// subdirectories, and those below its files, so that the files come first,
/// each kind in the order given.
pub open spec fn listed_tasks(
    tasks: Seq<Task>,
    dir: Vec<u8>,
    files: Seq<Vec<u8>>,
    dirs: Seq<Vec<u8>>,
) -> Seq<Task> {
    tasks.push(Task::FinishDir(dir)) + Seq::new(
        dirs.len(),
        |i: int| Task::VisitDir(dirs[dirs.len() - 1 - i]),
    ) + Seq::new(files.len(), |i: int| Task::VisitFile(files[files.len() - 1 - i]))
}

/// `s` holds the entries of `v` in byte-wise order.
pub open spec fn sorts(s: Seq<Vec<u8>>, v: Seq<Vec<u8>>) -> bool {
    is_sorted(s) && s.to_multiset() == v.to_multiset()
}

impl FileJob {
    /// The destination the job tries next.
    pub open spec fn target(&self, organized_dir: Seq<u8>, duplicates_dir: Seq<u8>) -> Seq<u8> {
        let ext = extension(self.source@).unwrap();
        match self.hash {
            None => organized_path(organized_dir, self.when, self.conflict as nat, ext),
            Some(h) => duplicate_path(duplicates_dir, self.when, h@, self.conflict as nat, ext),
        }
    }

    pub open spec fn wf(&self) -> bool {
        &&& self.when.wf()
        &&& is_photo_path(self.source@)
        &&& !is_excluded_path(self.source@)
        &&& self.contents@.len() < MAX_DIGEST_INPUT
        &&& (self.hash matches Some(h) ==> h@ == content_hash(self.contents@))
    }
}

impl Organizer {
    pub open spec fn target(&self) -> Seq<u8> {
        self.job.unwrap().target(self.organized_dir@, self.duplicates_dir@)
    }

    pub open spec fn wf(&self) -> bool {
        &&& (self.job matches Some(j) ==> j.wf() && self.outbox@.len() == 0)
        &&& self.roots_ok()
        &&& match self.waiting {
            Waiting::Slot(p) => self.job is Some && p@ == self.target() && !self.canceled,
            Waiting::Occupant(p) => self.job is Some && p@ == self.target()
                && self.job.unwrap().hash is None && !self.canceled,
            Waiting::Move(p) => self.job is Some && p@ == self.target() && !self.canceled,
            Waiting::FileRead(p) => self.job is None && is_photo_path(p@) && !is_excluded_path(p@)
                && self.outbox@.len() == 0 && !self.canceled,
            _ => self.job is None,
        }
    }

    /// `r` is the next step of job `j` once it has settled on `conflict` and,
    /// for a duplicate, on `hash`: a look at that destination, or a no-op when
    /// the destination is the photo's own path.
    pub open spec fn tries(
        &self,
        r: Action,
        j: FileJob,
        conflict: int,
        hash: Option<Seq<u8>>,
        old_self: Organizer,
    ) -> bool {
        let ext = extension(j.source@).unwrap();
        let t = match hash {
            None => organized_path(old_self.organized_dir@, j.when, conflict as nat, ext),
            Some(h) => duplicate_path(old_self.duplicates_dir@, j.when, h, conflict as nat, ext),
        };
        if t == j.source@ {
            &&& r matches Action::Emit(OrganizeEvent::PhotoNoOp { file }) && file@ == relayed(
                j.source@,
                old_self.unorganized_dir@,
                old_self.lay_unorganized_dir@,
            )
            &&& self.counters == (OrganizeCounters {
                photos_noop: inc(old_self.counters.photos_noop),
                files: inc(old_self.counters.files),
                ..old_self.counters
            })
            &&& self.finishes_next(j.source@)
            &&& self.tasks@ == old_self.tasks@
        } else {
            &&& r matches Action::Probe(p) && p@ == t
            &&& self.counters == old_self.counters
            &&& self.tasks@ == old_self.tasks@
            &&& self.job matches Some(k) && k.source@ == j.source@ && k.contents@ == j.contents@
                && k.when == j.when && k.conflict == conflict && match hash {
                None => k.hash is None,
                Some(h) => k.hash matches Some(kh) && kh@ == h,
            }
        }
    }

    /// The duplicates directory is neither of the other two.
    pub open spec fn roots_ok(&self) -> bool {
        &&& self.unorganized_dir@ != self.duplicates_dir@
        &&& self.organized_dir@ != self.duplicates_dir@
    }

    /// `r` reports `error` on file `f`: one more errored and one more visited
    /// file than in `before`, and `FileFinished` queued.
    pub open spec fn fails(&self, r: Action, f: Seq<u8>, error: FileFailure, before: Organizer) -> bool {
        &&& r matches Action::Emit(OrganizeEvent::FileError { file, error: e }) && file@ == relayed(
            f,
            before.unorganized_dir@,
            before.lay_unorganized_dir@,
        ) && e == error
        &&& self.counters == (OrganizeCounters {
            files_errored: inc(before.counters.files_errored),
            files: inc(before.counters.files),
            ..before.counters
        })
        &&& self.finishes_next(f)
        &&& self.tasks@ == before.tasks@
    }

    /// After a collision, job `j` takes its next conflict number, with
    /// `hash` as before; when every number is taken, the file fails.
    pub open spec fn retries(
        &self,
        r: Action,
        j: FileJob,
        hash: Option<Seq<u8>>,
        old_self: Organizer,
    ) -> bool {
        if j.conflict < u32::MAX {
            self.tries(r, j, j.conflict + 1, hash, old_self)
        } else {
            self.fails(r, j.source@, FileFailure::NoFreeSlot, old_self)
        }
    }

    /// The outcome is of the kind that `waiting` expects.
    pub open spec fn answers(waiting: Waiting, outcome: Outcome) -> bool {
        match waiting {
            Waiting::Handled => outcome is Handled,
            Waiting::Listing(_) => outcome is Listing || outcome is Failed,
            Waiting::FileRead(_) => outcome is FileRead || outcome is Failed,
            Waiting::Slot(_) => outcome is Slot || outcome is Failed,
            Waiting::Occupant(_) => outcome is Contents || outcome is Failed,
            Waiting::Move(_) => outcome is Moved || outcome is Failed,
            Waiting::Over => true,
        }
    }

    /// The only queued event is `FileFinished` for `f`, in the caller's spelling.
    pub open spec fn finishes_next(&self, f: Seq<u8>) -> bool {
        &&& self.outbox@.len() == 1
        &&& self.outbox@[0] matches OrganizeEvent::FileFinished { file } && file@ == relayed(
            f,
            self.unorganized_dir@,
            self.lay_unorganized_dir@,
        )
    }

    /// `r` skips file `f` for `reason`: one more skipped and one more visited
    /// file, `FileFinished` queued, and the walk goes on with `rest`.
    pub open spec fn skips(
        &self,
        r: Action,
        f: Seq<u8>,
        why: SkipReason,
        counters: OrganizeCounters,
        rest: Seq<Task>,
    ) -> bool {
        &&& r matches Action::Emit(OrganizeEvent::FileSkipped { file, reason }) && file@ == relayed(
            f,
            self.unorganized_dir@,
            self.lay_unorganized_dir@,
        ) && reason == why
        &&& self.counters == (OrganizeCounters {
            files_skipped: inc(counters.files_skipped),
            files: inc(counters.files),
            ..counters
        })
        &&& self.tasks@ == rest
        &&& self.finishes_next(f)
    }

    /// `r` and `self` are the next action and state of the engine, from the
    /// pending `tasks` (the last comes first), the queued `outbox` (handed out
    /// first, in order), `counters` and `canceled`:
    /// - a queued event goes out first;
    /// - with no work left the run is `Done`;
    /// - a directory is skipped when it is the duplicates directory, else it
    ///   starts and is then listed;
    /// - a finished directory counts as visited;
    /// - a file starts; then, once the run is canceled, nothing more happens
    ///   to it and the walk goes on; else a file without a photo extension or
    ///   with a `!` in its stem is skipped, and a photo is read.
    /// Every event names its path in the caller's spelling.
    pub open spec fn steps_to(
        &self,
        r: Action,
        tasks: Seq<Task>,
        outbox: Seq<OrganizeEvent>,
        counters: OrganizeCounters,
        canceled: bool,
    ) -> bool
        decreases tasks.len(),
    {
        let u = self.unorganized_dir@;
        let lu = self.lay_unorganized_dir@;
        if outbox.len() > 0 {
            &&& r == Action::Emit(outbox[0])
            &&& self.outbox@ == outbox.drop_first()
            &&& self.tasks@ == tasks
            &&& self.counters == counters
        } else if tasks.len() == 0 {
            r is Done
        } else {
            let rest = tasks.drop_last();
            match tasks.last() {
                Task::VisitDir(d) => if d@ == self.duplicates_dir@ {
                    &&& r matches Action::Emit(OrganizeEvent::DirSkipped { dir, reason }) && dir@
                        == relayed(d@, u, lu) && reason == SkipReason::DuplicatesDirectory
                    &&& self.counters == (OrganizeCounters {
                        dirs_skipped: inc(counters.dirs_skipped),
                        ..counters
                    })
                    &&& self.tasks@ == rest
                    &&& self.outbox@.len() == 0
                } else {
                    &&& r matches Action::Emit(OrganizeEvent::DirStarted { dir }) && dir@ == relayed(
                        d@,
                        u,
                        lu,
                    )
                    &&& self.counters == counters
                    &&& self.tasks@ == rest.push(Task::ListDir(d))
                    &&& self.outbox@.len() == 0
                },
                Task::ListDir(d) => {
                    &&& r == Action::ListDirectory(d)
                    &&& self.counters == counters
                    &&& self.tasks@ == rest
                    &&& self.outbox@.len() == 0
                },
                Task::FinishDir(d) => {
                    &&& r matches Action::Emit(OrganizeEvent::DirFinished { dir }) && dir@ == relayed(
                        d@,
                        u,
                        lu,
                    )
                    &&& self.counters == (OrganizeCounters { dirs: inc(counters.dirs), ..counters })
                    &&& self.tasks@ == rest
                    &&& self.outbox@.len() == 0
                },
                Task::VisitFile(f) => {
                    &&& r matches Action::Emit(OrganizeEvent::FileStarted { file }) && file@
                        == relayed(f@, u, lu)
                    &&& self.counters == counters
                    &&& self.tasks@ == rest.push(Task::CheckFile(f))
                    &&& self.outbox@.len() == 0
                },
                Task::CheckFile(f) => if canceled {
                    self.steps_to(r, rest, outbox, counters, canceled)
                } else if !is_photo_path(f@) {
                    self.skips(r, f@, SkipReason::NotPhotoExtension, counters, rest)
                } else if is_excluded_path(f@) {
                    self.skips(r, f@, SkipReason::NameContainsBang, counters, rest)
                } else {
                    &&& r == Action::ReadFile(f)
                    &&& self.counters == counters
                    &&& self.tasks@ == rest
                    &&& self.outbox@.len() == 0
                },
            }
        }
    }

    /// The six directories are those of `o`.
    pub open spec fn same_setup(&self, o: Organizer) -> bool {
        &&& self.unorganized_dir == o.unorganized_dir
        &&& self.organized_dir == o.organized_dir
        &&& self.duplicates_dir == o.duplicates_dir
        &&& self.lay_unorganized_dir == o.lay_unorganized_dir
        &&& self.lay_organized_dir == o.lay_organized_dir
        &&& self.lay_duplicates_dir == o.lay_duplicates_dir
    }

    /// A job in progress is well formed, and no event waits beside it.
    pub open spec fn job_ok(&self) -> bool {
        self.job matches Some(j) ==> j.wf() && self.outbox@.len() == 0
    }

    /// A file event under the caller's spelling of the unorganized directory.
    fn lay(&self, file: &Vec<u8>) -> (r: Vec<u8>)
        ensures
            r@ == relayed(file@, self.unorganized_dir@, self.lay_unorganized_dir@),
    {
        decry_path(file.as_slice(), self.unorganized_dir.as_slice(), self.lay_unorganized_dir.as_slice())
    }
}

impl Organizer {
    /// Create an organizer for the three directories: their canonical forms,
    /// which all filesystem work uses, and the forms the caller spelled, which
    /// the events use. The duplicates directory must differ from the other two.
    pub fn new(
        unorganized_dir: Vec<u8>,
        organized_dir: Vec<u8>,
        duplicates_dir: Vec<u8>,
        lay_unorganized_dir: Vec<u8>,
        lay_organized_dir: Vec<u8>,
        lay_duplicates_dir: Vec<u8>,
    ) -> (r: Result<Organizer, SetupError>)
        ensures
            r == Err::<Organizer, SetupError>(SetupError::UnorganizedIsDuplicates) <==> unorganized_dir@
                == duplicates_dir@,
            r == Err::<Organizer, SetupError>(SetupError::OrganizedIsDuplicates) <==> unorganized_dir@
                != duplicates_dir@ && organized_dir@ == duplicates_dir@,
            r matches Ok(o) ==> o.wf() && o.unorganized_dir == unorganized_dir && o.organized_dir
                == organized_dir && o.duplicates_dir == duplicates_dir && o.lay_unorganized_dir
                == lay_unorganized_dir && o.lay_organized_dir == lay_organized_dir
                && o.lay_duplicates_dir == lay_duplicates_dir,
    {
        if equals_word(unorganized_dir.as_slice(), duplicates_dir.as_slice()) {
            return Err(SetupError::UnorganizedIsDuplicates);
        }
        if equals_word(organized_dir.as_slice(), duplicates_dir.as_slice()) {
            return Err(SetupError::OrganizedIsDuplicates);
        }
        Ok(
            Organizer {
                lay_unorganized_dir,
                lay_organized_dir,
                lay_duplicates_dir,
                unorganized_dir,
                organized_dir,
                duplicates_dir,
                counters: OrganizeCounters::new(),
                canceled: false,
                tasks: Vec::new(),
                outbox: Vec::new(),
                job: None,
                waiting: Waiting::Over,
            },
        )
    }

    /// The tally so far, with the wall-clock time the caller measured.
    pub fn result(&self, duration_nanos: u64) -> (r: OrganizeResult)
        ensures
            r == (OrganizeResult {
                dirs: self.counters.dirs,
                dirs_skipped: self.counters.dirs_skipped,
                files: self.counters.files,
                files_skipped: self.counters.files_skipped,
                files_errored: self.counters.files_errored,
                photos_moved: self.counters.photos_moved,
                duplicate_photos_moved: self.counters.duplicate_photos_moved,
                photos_noop: self.counters.photos_noop,
                duration_nanos,
            }),
    {
        let c = self.counters;
        OrganizeResult {
            dirs: c.dirs,
            dirs_skipped: c.dirs_skipped,
            files: c.files,
            files_skipped: c.files_skipped,
            files_errored: c.files_errored,
            photos_moved: c.photos_moved,
            duplicate_photos_moved: c.duplicate_photos_moved,
            photos_noop: c.photos_noop,
            duration_nanos,
        }
    }

    /// Queues `FileFinished` for `file`, which counts as visited.
    fn finish_file(&mut self, file: &Vec<u8>)
        requires
            old(self).job is None,
        ensures
            final(self).same_setup(*old(self)),
            final(self).counters == (OrganizeCounters {
                files: inc(old(self).counters.files),
                ..old(self).counters
            }),
            final(self).canceled == old(self).canceled,
            final(self).job is None,
            final(self).tasks == old(self).tasks,
            final(self).outbox@.len() == old(self).outbox@.len() + 1,
            final(self).outbox@.drop_last() == old(self).outbox@,
            final(self).outbox@.last() matches OrganizeEvent::FileFinished { file: g } && g@
                == relayed(file@, old(self).unorganized_dir@, old(self).lay_unorganized_dir@),
    {
        increment(&mut self.counters.files);
        let f = self.lay(file);
        self.outbox.push(OrganizeEvent::FileFinished { file: f });
    }

    /// Queues `FileSkipped` and `FileFinished` for `file`.
    fn skip_file(&mut self, file: &Vec<u8>, reason: SkipReason)
        requires
            old(self).job is None,
            old(self).outbox@.len() == 0,
        ensures
            final(self).same_setup(*old(self)),
            final(self).counters == (OrganizeCounters {
                files_skipped: inc(old(self).counters.files_skipped),
                files: inc(old(self).counters.files),
                ..old(self).counters
            }),
            final(self).canceled == old(self).canceled,
            final(self).job is None,
            final(self).tasks == old(self).tasks,
            final(self).outbox@.len() == 2,
            final(self).outbox@[0] matches OrganizeEvent::FileSkipped { file: g, reason: why } && g@
                == relayed(file@, old(self).unorganized_dir@, old(self).lay_unorganized_dir@)
                && why == reason,
            final(self).outbox@[1] matches OrganizeEvent::FileFinished { file: g } && g@ == relayed(
                file@,
                old(self).unorganized_dir@,
                old(self).lay_unorganized_dir@,
            ),
    {
        increment(&mut self.counters.files_skipped);
        let f = self.lay(file);
        self.outbox.push(OrganizeEvent::FileSkipped { file: f, reason });
        let ghost pushed = self.outbox@;
        self.finish_file(file);
        assert(self.outbox@[0] == pushed[0]);
    }

    /// Drops the job on `file` and queues `FileError` and `FileFinished`.
    fn fail_file(&mut self, file: &Vec<u8>, error: FileFailure)
        requires
            old(self).outbox@.len() == 0,
        ensures
            final(self).same_setup(*old(self)),
            final(self).counters == (OrganizeCounters {
                files_errored: inc(old(self).counters.files_errored),
                files: inc(old(self).counters.files),
                ..old(self).counters
            }),
            final(self).canceled == old(self).canceled,
            final(self).job is None,
            final(self).tasks == old(self).tasks,
            final(self).outbox@.len() == 2,
            final(self).outbox@[0] matches OrganizeEvent::FileError { file: g, error: e } && g@
                == relayed(file@, old(self).unorganized_dir@, old(self).lay_unorganized_dir@) && e
                == error,
            final(self).outbox@[1] matches OrganizeEvent::FileFinished { file: g } && g@ == relayed(
                file@,
                old(self).unorganized_dir@,
                old(self).lay_unorganized_dir@,
            ),
    {
        self.job = None;
        increment(&mut self.counters.files_errored);
        let f = self.lay(file);
        self.outbox.push(OrganizeEvent::FileError { file: f, error });
        let ghost pushed = self.outbox@;
        self.finish_file(file);
        assert(self.outbox@[0] == pushed[0]);
    }

    /// Hands out the queued event that comes first.
    fn emit_queued(&mut self) -> (r: Action)
        requires
            old(self).outbox@.len() > 0,
            old(self).job is None,
            old(self).roots_ok(),
        ensures
            final(self).wf(),
            final(self).same_setup(*old(self)),
            final(self).counters == old(self).counters,
            final(self).canceled == old(self).canceled,
            final(self).tasks == old(self).tasks,
            final(self).outbox@ == old(self).outbox@.drop_first(),
            r == Action::Emit(old(self).outbox@[0]),
    {
        let e = self.outbox.remove(0);
        self.waiting = Waiting::Handled;
        assert(self.outbox@ =~= old(self).outbox@.drop_first());
        Action::Emit(e)
    }

    /// Hands out the next queued event, or takes up the next task.
    fn advance(&mut self) -> (r: Action)
        requires
            old(self).job is None,
            old(self).roots_ok(),
        ensures
            final(self).wf(),
            final(self).same_setup(*old(self)),
            final(self).counters.covers(old(self).counters),
            final(self).canceled == old(self).canceled,
            !(r is Move),
            !(r is Probe),
            !(r is ReadOccupant),
            old(self).canceled ==> !(r is ReadFile),
            final(self).steps_to(
                r,
                old(self).tasks@,
                old(self).outbox@,
                old(self).counters,
                old(self).canceled,
            ),
    {
        if self.outbox.len() > 0 {
            return self.emit_queued();
        }
        assert(old(self).outbox@ =~= Seq::<OrganizeEvent>::empty());
        loop
            invariant
                self.job is None,
                self.roots_ok(),
                self.same_setup(*old(self)),
                self.counters.covers(old(self).counters),
                self.canceled == old(self).canceled,
                self.outbox@.len() == 0,
                old(self).outbox@.len() == 0,
                self.counters == old(self).counters,
                forall|o: Organizer, a: Action|
                    #[trigger] o.steps_to(
                        a,
                        self.tasks@,
                        Seq::empty(),
                        old(self).counters,
                        old(self).canceled,
                    ) ==> o.steps_to(
                        a,
                        old(self).tasks@,
                        old(self).outbox@,
                        old(self).counters,
                        old(self).canceled,
                    ),
            decreases self.tasks@.len(),
        {
            let ghost before = self.tasks@;
            match self.tasks.pop() {
                None => {
                    self.waiting = Waiting::Over;
                    let r = Action::Done;
                    proof {
                        assert(self.steps_to(r, before, Seq::empty(), old(self).counters, old(self).canceled));
                    }
                    return r;
                },
                Some(Task::VisitDir(d)) => {
                    let l = self.lay(&d);
                    if equals_word(d.as_slice(), self.duplicates_dir.as_slice()) {
                        increment(&mut self.counters.dirs_skipped);
                        self.waiting = Waiting::Handled;
                        let r = Action::Emit(
                            OrganizeEvent::DirSkipped { dir: l, reason: SkipReason::DuplicatesDirectory },
                        );
                        proof {
                            assert(self.steps_to(r, before, Seq::empty(), old(self).counters, old(self).canceled));
                        }
                        return r;
                    } else {
                        self.tasks.push(Task::ListDir(d));
                        self.waiting = Waiting::Handled;
                        let r = Action::Emit(OrganizeEvent::DirStarted { dir: l });
                        proof {
                            assert(self.steps_to(r, before, Seq::empty(), old(self).counters, old(self).canceled));
                        }
                        return r;
                    }
                },
                Some(Task::ListDir(d)) => {
                    self.waiting = Waiting::Listing(to_owned_bytes(d.as_slice()));
                    let r = Action::ListDirectory(d);
                    proof {
                        assert(self.steps_to(r, before, Seq::empty(), old(self).counters, old(self).canceled));
                    }
                    return r;
                },
                Some(Task::FinishDir(d)) => {
                    increment(&mut self.counters.dirs);
                    let l = self.lay(&d);
                    self.waiting = Waiting::Handled;
                    let r = Action::Emit(OrganizeEvent::DirFinished { dir: l });
                    proof {
                        assert(self.steps_to(r, before, Seq::empty(), old(self).counters, old(self).canceled));
                    }
                    return r;
                },
                Some(Task::VisitFile(f)) => {
                    let l = self.lay(&f);
                    self.tasks.push(Task::CheckFile(f));
                    self.waiting = Waiting::Handled;
                    let r = Action::Emit(OrganizeEvent::FileStarted { file: l });
                    proof {
                        assert(self.steps_to(r, before, Seq::empty(), old(self).counters, old(self).canceled));
                    }
                    return r;
                },
                Some(Task::CheckFile(f)) => {
                    if self.canceled {
                        // canceled before the file was taken up: nothing more for it
                        proof {
                            assert forall|o: Organizer, a: Action|
                                #[trigger] o.steps_to(
                                    a,
                                    self.tasks@,
                                    Seq::empty(),
                                    old(self).counters,
                                    old(self).canceled,
                                ) implies o.steps_to(
                                a,
                                before,
                                Seq::empty(),
                                old(self).counters,
                                old(self).canceled,
                            ) by {
                                assert(before.drop_last() == self.tasks@);
                            }
                        }
                    } else if !is_photo_file(f.as_slice()) {
                        self.skip_file(&f, SkipReason::NotPhotoExtension);
                        let r = self.emit_queued();
                        proof {
                            assert(self.steps_to(r, before, Seq::empty(), old(self).counters, old(self).canceled));
                        }
                        return r;
                    } else if is_excluded_file(f.as_slice()) {
                        self.skip_file(&f, SkipReason::NameContainsBang);
                        let r = self.emit_queued();
                        proof {
                            assert(self.steps_to(r, before, Seq::empty(), old(self).counters, old(self).canceled));
                        }
                        return r;
                    } else {
                        self.waiting = Waiting::FileRead(to_owned_bytes(f.as_slice()));
                        let r = Action::ReadFile(f);
                        proof {
                            assert(self.steps_to(r, before, Seq::empty(), old(self).counters, old(self).canceled));
                        }
                        return r;
                    }
                },
            }
        }
    }

    /// The destination the current job tries.
    fn target_path(&self) -> (r: Vec<u8>)
        requires
            self.job is Some,
            self.job.unwrap().wf(),
        ensures
            r@ == self.target(),
    {
        match &self.job {
            Some(j) => match &j.hash {
                None => get_organized_photo_path(
                    j.source.as_slice(),
                    &j.when,
                    j.conflict,
                    self.organized_dir.as_slice(),
                ),
                Some(h) => get_duplicate_photo_path(
                    j.source.as_slice(),
                    &j.when,
                    h.as_slice(),
                    j.conflict,
                    self.duplicates_dir.as_slice(),
                ),
            },
            None => Vec::new(),
        }
    }

    /// Takes the current job one step: stop when canceled, finish when the
    /// photo already sits at its destination, else look at the destination.
    fn job_next(&mut self) -> (r: Action)
        requires
            old(self).job is Some,
            old(self).job_ok(),
            old(self).roots_ok(),
        ensures
            final(self).wf(),
            final(self).same_setup(*old(self)),
            final(self).counters.covers(old(self).counters),
            final(self).canceled == old(self).canceled,
            !(r is Move),
            final(self).tasks@ == old(self).tasks@,
            r matches Action::Probe(p) ==> !old(self).canceled && p@ == old(self).target()
                && p@ != old(self).job.unwrap().source@ && final(self).job == old(self).job
                && final(self).counters == old(self).counters,
            !old(self).canceled && old(self).target() != old(self).job.unwrap().source@ ==> r is Probe,
            !old(self).canceled && old(self).target() == old(self).job.unwrap().source@ ==> (
            r matches Action::Emit(OrganizeEvent::PhotoNoOp { file }) && file@ == relayed(
                old(self).job.unwrap().source@,
                old(self).unorganized_dir@,
                old(self).lay_unorganized_dir@,
            ) && final(self).counters == (OrganizeCounters {
                photos_noop: inc(old(self).counters.photos_noop),
                files: inc(old(self).counters.files),
                ..old(self).counters
            }) && final(self).finishes_next(old(self).job.unwrap().source@)),
    {
        let target = self.target_path();
        let job = self.job.take();
        let j = match job {
            Some(j) => j,
            None => return self.advance(),
        };
        if self.canceled {
            self.finish_file(&j.source);
            return self.advance();
        }
        if equals_word(target.as_slice(), j.source.as_slice()) {
            increment(&mut self.counters.photos_noop);
            let l = self.lay(&j.source);
            assert(self.outbox@.len() == 0);
            self.outbox.push(OrganizeEvent::PhotoNoOp { file: l });
            let ghost pushed = self.outbox@;
            self.finish_file(&j.source);
            assert(self.outbox@.drop_last() == pushed);
            assert(self.outbox@[0] == pushed[0]);
            return self.advance();
        }
        self.job = Some(j);
        self.waiting = Waiting::Slot(to_owned_bytes(target.as_slice()));
        Action::Probe(target)
    }

    /// Moves the current job to its next conflict number.
    fn bump_conflict(&mut self) -> (r: Action)
        requires
            old(self).job is Some,
            old(self).job_ok(),
            old(self).roots_ok(),
        ensures
            final(self).wf(),
            final(self).same_setup(*old(self)),
            final(self).counters.covers(old(self).counters),
            final(self).canceled == old(self).canceled,
            !(r is Move),
            final(self).tasks@ == old(self).tasks@,
            !old(self).canceled ==> final(self).retries(
                r,
                old(self).job.unwrap(),
                match old(self).job.unwrap().hash {
                    Some(h) => Some(h@),
                    None => None,
                },
                *old(self),
            ),
    {
        let job = self.job.take();
        let mut j = match job {
            Some(j) => j,
            None => return self.advance(),
        };
        if j.conflict == u32::MAX {
            self.fail_file(&j.source, FileFailure::NoFreeSlot);
            return self.advance();
        }
        j.conflict = j.conflict + 1;
        self.job = Some(j);
        self.job_next()
    }

    /// Queues the entries of `dir`: its files, then its subdirectories, each in
    /// byte-wise order, then the end of `dir`.
    fn push_listing(&mut self, dir: Vec<u8>, files: Vec<Vec<u8>>, dirs: Vec<Vec<u8>>)
        ensures
            final(self).same_setup(*old(self)),
            final(self).counters == old(self).counters,
            final(self).canceled == old(self).canceled,
            final(self).job == old(self).job,
            final(self).outbox == old(self).outbox,
            exists|sf: Seq<Vec<u8>>, sd: Seq<Vec<u8>>|
                sorts(sf, files@) && sorts(sd, dirs@) && #[trigger] listed_tasks(
                    old(self).tasks@,
                    dir,
                    sf,
                    sd,
                ) == final(self).tasks@,
    {
        let ghost d0 = dir;
        self.tasks.push(Task::FinishDir(dir));
        let ghost base = self.tasks@;
        let mut dirs = sorted(dirs);
        let ghost sd = dirs@;
        while dirs.len() > 0
            invariant
                self.same_setup(*old(self)),
                self.counters == old(self).counters,
                self.canceled == old(self).canceled,
                self.job == old(self).job,
                self.outbox == old(self).outbox,
                dirs@.len() <= sd.len(),
                dirs@ == sd.subrange(0, dirs@.len() as int),
                self.tasks@ == base + Seq::new(
                    (sd.len() - dirs@.len()) as nat,
                    |i: int| Task::VisitDir(sd[sd.len() - 1 - i]),
                ),
            decreases dirs.len(),
        {
            let ghost n = dirs@.len();
            let d = dirs.pop().unwrap();
            assert(d == sd[n - 1]);
            self.tasks.push(Task::VisitDir(d));
            assert(dirs@ =~= sd.subrange(0, dirs@.len() as int));
            assert(self.tasks@ =~= base + Seq::new(
                (sd.len() - dirs@.len()) as nat,
                |i: int| Task::VisitDir(sd[sd.len() - 1 - i]),
            ));
        }
        let ghost base2 = self.tasks@;
        let mut files = sorted(files);
        let ghost sf = files@;
        while files.len() > 0
            invariant
                self.same_setup(*old(self)),
                self.counters == old(self).counters,
                self.canceled == old(self).canceled,
                self.job == old(self).job,
                self.outbox == old(self).outbox,
                files@.len() <= sf.len(),
                files@ == sf.subrange(0, files@.len() as int),
                self.tasks@ == base2 + Seq::new(
                    (sf.len() - files@.len()) as nat,
                    |i: int| Task::VisitFile(sf[sf.len() - 1 - i]),
                ),
            decreases files.len(),
        {
            let ghost n = files@.len();
            let f = files.pop().unwrap();
            assert(f == sf[n - 1]);
            self.tasks.push(Task::VisitFile(f));
            assert(files@ =~= sf.subrange(0, files@.len() as int));
            assert(self.tasks@ =~= base2 + Seq::new(
                (sf.len() - files@.len()) as nat,
                |i: int| Task::VisitFile(sf[sf.len() - 1 - i]),
            ));
        }
        assert(listed_tasks(old(self).tasks@, d0, sf, sd) =~= self.tasks@);
    }

    /// Ends the run on an outcome that does not answer the last action.
    fn unexpected(&mut self) -> (r: Action)
        requires
            old(self).roots_ok(),
        ensures
            final(self).wf(),
            final(self).same_setup(*old(self)),
            final(self).counters == old(self).counters,
            final(self).canceled == old(self).canceled,
            r == Action::Failed(RunFailure::UnexpectedOutcome),
    {
        self.job = None;
        self.waiting = Waiting::Over;
        Action::Failed(RunFailure::UnexpectedOutcome)
    }

    /// Starts a run: resets the counters and the cancellation flag, and hands
    /// out the first action of the walk of the unorganized directory.
    pub fn organize(&mut self) -> (r: Action)
        requires
            old(self).roots_ok(),
        ensures
            final(self).wf(),
            final(self).same_setup(*old(self)),
            final(self).counters == OrganizeCounters::zero(),
            !final(self).canceled,
            r matches Action::Emit(OrganizeEvent::DirStarted { dir }) && dir@ == relayed(
                old(self).unorganized_dir@,
                old(self).unorganized_dir@,
                old(self).lay_unorganized_dir@,
            ),
            final(self).tasks@.len() == 1,
            final(self).tasks@[0] matches Task::ListDir(d) && d@ == old(self).unorganized_dir@,
            final(self).outbox@.len() == 0,
    {
        self.counters = OrganizeCounters::new();
        self.canceled = false;
        self.job = None;
        self.outbox = Vec::new();
        self.tasks = Vec::new();
        let root = to_owned_bytes(self.unorganized_dir.as_slice());
        let l = self.lay(&root);
        self.outbox.push(OrganizeEvent::DirStarted { dir: l });
        self.tasks.push(Task::ListDir(root));
        self.advance()
    }

    /// Takes the outcome of the last action and hands out the next one.
    pub fn resume(&mut self, outcome: Outcome) -> (r: Action)
        requires
            old(self).wf(),
        ensures
            final(self).wf(),
            final(self).same_setup(*old(self)),
            final(self).counters.covers(old(self).counters),
            old(self).canceled ==> final(self).canceled,
            // a photo moves only to the destination just reported free, and
            // never once the run is canceled
            r matches Action::Move { from, to } ==> {
                &&& old(self).waiting matches Waiting::Slot(p) && p@ == to@
                &&& outcome matches Outcome::Slot(None)
                &&& !final(self).canceled
                &&& old(self).job matches Some(j) && from@ == j.source@
                &&& to@ == old(self).target()
                &&& is_photo_path(from@) && !is_excluded_path(from@)
            },
            // a photo read: it goes first for its organized destination with no
            // conflict number, at the date-time the policy picks
            // (its EXIF date-times are those its contents carry); a file too
            // large to hash, or with file times out of range, fails
            old(self).waiting matches Waiting::FileRead(file) ==> (
            outcome matches Outcome::FileRead { created, modified, contents } ==> (if contents@.len()
                >= MAX_DIGEST_INPUT {
                final(self).fails(r, file@, FileFailure::TooLarge, *old(self))
            } else if !(created.in_range() && modified.in_range()) {
                final(self).fails(r, file@, FileFailure::TimeOutOfRange, *old(self))
            } else {
                exists|info: PhotoDateTimeInfo|
                    info.wf() && info.created.instant() == created.instant()
                    && info.modified.instant() == modified.instant() && (ExifTimes {
                    base: info.exif_base,
                    original: info.exif_original,
                    digitized: info.exif_digitized,
                }).read_from(contents@) && #[trigger] final(self).tries(
                    r,
                    FileJob {
                        source: file,
                        contents,
                        when: info.best_spec(),
                        conflict: 0,
                        hash: None,
                    },
                    0,
                    None,
                    *old(self),
                )
            })),
            // the handler's answer: `false` cancels the run
            old(self).waiting is Handled ==> (outcome matches Outcome::Handled(keep_going) ==> (
            final(self).canceled == (old(self).canceled || !keep_going) && final(self).steps_to(
                r,
                old(self).tasks@,
                old(self).outbox@,
                old(self).counters,
                old(self).canceled || !keep_going,
            ))),
            // a listing: the entries join the pending work, and the walk goes on
            old(self).waiting matches Waiting::Listing(dir) ==> (
            outcome matches Outcome::Listing { files, dirs } ==> exists|
                sf: Seq<Vec<u8>>,
                sd: Seq<Vec<u8>>,
            |
                sorts(sf, files@) && sorts(sd, dirs@) && #[trigger] final(self).steps_to(
                    r,
                    listed_tasks(old(self).tasks@, dir, sf, sd),
                    old(self).outbox@,
                    old(self).counters,
                    old(self).canceled,
                )),
            // a free destination: the photo moves there
            old(self).waiting is Slot ==> (outcome matches Outcome::Slot(None) ==> (
            r matches Action::Move { from, to } && from@ == old(self).job.unwrap().source@ && to@
                == old(self).target() && final(self).tasks@ == old(self).tasks@
                && final(self).counters == old(self).counters)),
            // a finished move is reported, with both paths in the caller's spelling
            old(self).waiting is Move ==> (outcome matches Outcome::Moved ==> (match old(
                self,
            ).job.unwrap().hash {
                None => r matches Action::Emit(OrganizeEvent::PhotoMoved { from, to }) && from@
                    == relayed(
                    old(self).job.unwrap().source@,
                    old(self).unorganized_dir@,
                    old(self).lay_unorganized_dir@,
                ) && to@ == relayed(
                    old(self).target(),
                    old(self).organized_dir@,
                    old(self).lay_organized_dir@,
                ) && final(self).counters == (OrganizeCounters {
                    photos_moved: inc(old(self).counters.photos_moved),
                    files: inc(old(self).counters.files),
                    ..old(self).counters
                }),
                Some(_) => r matches Action::Emit(OrganizeEvent::DuplicatePhotoMoved { from, to })
                    && from@ == relayed(
                    old(self).job.unwrap().source@,
                    old(self).unorganized_dir@,
                    old(self).lay_unorganized_dir@,
                ) && to@ == relayed(
                    old(self).target(),
                    old(self).duplicates_dir@,
                    old(self).lay_duplicates_dir@,
                ) && final(self).counters == (OrganizeCounters {
                    duplicate_photos_moved: inc(old(self).counters.duplicate_photos_moved),
                    files: inc(old(self).counters.files),
                    ..old(self).counters
                }),
            } && final(self).finishes_next(old(self).job.unwrap().source@) && final(self).tasks@
                == old(self).tasks@)),
            // a failed filesystem operation on a photo is reported as its error
            (old(self).waiting is Slot || old(self).waiting is Occupant || old(self).waiting is Move)
                ==> (outcome matches Outcome::Failed(message) ==> final(self).fails(
                r,
                old(self).job.unwrap().source@,
                FileFailure::Io(message),
                *old(self),
            )),
            old(self).waiting matches Waiting::FileRead(file) ==> (
            outcome matches Outcome::Failed(message) ==> final(self).fails(
                r,
                file@,
                FileFailure::Io(message),
                *old(self),
            )),
            // a destination holding other contents: the next conflict number
            old(self).waiting is Slot ==> (outcome matches Outcome::Slot(Some(n)) ==> ((
            old(self).job.unwrap().hash is Some || n != old(self).job.unwrap().contents@.len())
                ==> final(self).retries(
                r,
                old(self).job.unwrap(),
                match old(self).job.unwrap().hash {
                    Some(h) => Some(h@),
                    None => None,
                },
                *old(self),
            ))),
            // an organized destination holding the same length: read it
            old(self).waiting is Slot ==> (outcome matches Outcome::Slot(Some(n)) ==> (old(
                self,
            ).job.unwrap().hash is None && n == old(self).job.unwrap().contents@.len() ==> (
            r matches Action::ReadOccupant(p) && p@ == old(self).target() && final(self).tasks@
                == old(self).tasks@ && final(self).counters == old(self).counters))),
            // the photo duplicates the file at its organized destination: on to
            // the duplicates directory, named by its content hash
            old(self).waiting is Occupant ==> (outcome matches Outcome::Contents(c) ==> (c@.len()
                == old(self).job.unwrap().contents@.len() && content_hash(c@) == content_hash(
                old(self).job.unwrap().contents@,
            ) ==> final(self).tries(
                r,
                old(self).job.unwrap(),
                0,
                Some(content_hash(old(self).job.unwrap().contents@)),
                *old(self),
            ))),
            // different contents: the next conflict number
            old(self).waiting is Occupant ==> (outcome matches Outcome::Contents(c) ==> ((c@.len()
                != old(self).job.unwrap().contents@.len() || content_hash(c@) != content_hash(
                old(self).job.unwrap().contents@,
            )) ==> final(self).retries(r, old(self).job.unwrap(), None, *old(self)))),
            // a listing that failed ends the run
            old(self).waiting matches Waiting::Listing(dir) ==> (
            outcome matches Outcome::Failed(message) ==> r == Action::Failed(
                RunFailure::Listing { dir, message },
            )),
            // an outcome that does not answer the last action ends the run
            !Organizer::answers(old(self).waiting, outcome) ==> r == Action::Failed(
                RunFailure::UnexpectedOutcome,
            ),
            old(self).waiting is Over ==> r is Done,
    {
        let mut waiting = Waiting::Over;
        std::mem::swap(&mut self.waiting, &mut waiting);
        match waiting {
            Waiting::Handled => match outcome {
                Outcome::Handled(keep_going) => {
                    if !keep_going {
                        self.canceled = true;
                    }
                    self.advance()
                },
                _ => self.unexpected(),
            },
            Waiting::Listing(dir) => match outcome {
                Outcome::Listing { files, dirs } => {
                    let ghost (d0, fv, dv) = (dir, files@, dirs@);
                    self.push_listing(dir, files, dirs);
                    let ghost mid = self.tasks@;
                    let r = self.advance();
                    proof {
                        let (sf, sd) = choose|sf: Seq<Vec<u8>>, sd: Seq<Vec<u8>>|
                            sorts(sf, fv) && sorts(sd, dv) && #[trigger] listed_tasks(
                                old(self).tasks@,
                                d0,
                                sf,
                                sd,
                            ) == mid;
                        assert(self.steps_to(
                            r,
                            listed_tasks(old(self).tasks@, d0, sf, sd),
                            old(self).outbox@,
                            old(self).counters,
                            old(self).canceled,
                        ));
                    }
                    r
                },
                Outcome::Failed(message) => {
                    self.waiting = Waiting::Over;
                    Action::Failed(RunFailure::Listing { dir, message })
                },
                _ => self.unexpected(),
            },
            Waiting::FileRead(file) => match outcome {
                Outcome::FileRead { created, modified, contents } => {
                    if contents.len() as u64 >= MAX_DIGEST_INPUT {
                        self.fail_file(&file, FileFailure::TooLarge);
                        return self.advance();
                    }
                    match PhotoDateTimeInfo::load(created, modified, contents.as_slice()) {
                        Ok(info) => {
                            let when = info.best();
                            let ghost job = FileJob {
                                source: file,
                                contents,
                                when,
                                conflict: 0,
                                hash: None,
                            };
                            self.job = Some(
                                FileJob { source: file, contents, when, conflict: 0, hash: None },
                            );
                            let r = self.job_next();
                            assert(self.tries(r, job, 0, None, *old(self)));
                            r
                        },
                        Err(_) => {
                            self.fail_file(&file, FileFailure::TimeOutOfRange);
                            self.advance()
                        },
                    }
                },
                Outcome::Failed(message) => {
                    self.fail_file(&file, FileFailure::Io(message));
                    self.advance()
                },
                _ => self.unexpected(),
            },
            Waiting::Slot(dest) => match outcome {
                Outcome::Slot(None) => {
                    let from = match &self.job {
                        Some(j) => to_owned_bytes(j.source.as_slice()),
                        None => Vec::new(),
                    };
                    self.waiting = Waiting::Move(to_owned_bytes(dest.as_slice()));
                    Action::Move { from, to: dest }
                },
                Outcome::Slot(Some(n)) => {
                    let (duplicate_stage, same_length) = match &self.job {
                        Some(j) => (j.hash.is_some(), n == j.contents.len() as u64),
                        None => (false, false),
                    };
                    if duplicate_stage || !same_length {
                        self.bump_conflict()
                    } else {
                        self.waiting = Waiting::Occupant(to_owned_bytes(dest.as_slice()));
                        Action::ReadOccupant(dest)
                    }
                },
                Outcome::Failed(message) => self.fail_current(FileFailure::Io(message)),
                _ => self.unexpected(),
            },
            Waiting::Occupant(dest) => match outcome {
                Outcome::Contents(c) => {
                    let job = self.job.take();
                    let mut j = match job {
                        Some(j) => j,
                        None => return self.unexpected(),
                    };
                    if c.len() != j.contents.len() {
                        self.job = Some(j);
                        return self.bump_conflict();
                    }
                    match are_same_file_contents(j.contents.as_slice(), c.as_slice()) {
                        Some(hash) => {
                            j.hash = Some(hash);
                            j.conflict = 0;
                            self.job = Some(j);
                            self.job_next()
                        },
                        None => {
                            self.job = Some(j);
                            self.bump_conflict()
                        },
                    }
                },
                Outcome::Failed(message) => self.fail_current(FileFailure::Io(message)),
                _ => self.unexpected(),
            },
            Waiting::Move(dest) => match outcome {
                Outcome::Moved => {
                    let job = self.job.take();
                    let j = match job {
                        Some(j) => j,
                        None => return self.unexpected(),
                    };
                    let from = self.lay(&j.source);
                    match j.hash {
                        None => {
                            increment(&mut self.counters.photos_moved);
                            let to = decry_path(
                                dest.as_slice(),
                                self.organized_dir.as_slice(),
                                self.lay_organized_dir.as_slice(),
                            );
                            self.outbox.push(OrganizeEvent::PhotoMoved { from, to });
                        },
                        Some(_) => {
                            increment(&mut self.counters.duplicate_photos_moved);
                            let to = decry_path(
                                dest.as_slice(),
                                self.duplicates_dir.as_slice(),
                                self.lay_duplicates_dir.as_slice(),
                            );
                            self.outbox.push(OrganizeEvent::DuplicatePhotoMoved { from, to });
                        },
                    }
                    let ghost pushed = self.outbox@;
                    self.finish_file(&j.source);
                    assert(self.outbox@[0] == pushed[0]);
                    self.advance()
                },
                Outcome::Failed(message) => self.fail_current(FileFailure::Io(message)),
                _ => self.unexpected(),
            },
            Waiting::Over => Action::Done,
        }
    }

    /// Ends the current job on `error`.
    fn fail_current(&mut self, error: FileFailure) -> (r: Action)
        requires
            old(self).roots_ok(),
            old(self).job is Some,
            old(self).job_ok(),
        ensures
            final(self).wf(),
            final(self).same_setup(*old(self)),
            final(self).counters.covers(old(self).counters),
            final(self).canceled == old(self).canceled,
            !(r is Move),
            final(self).fails(r, old(self).job.unwrap().source@, error, *old(self)),
    {
        let job = self.job.take();
        match job {
            Some(j) => self.fail_file(&j.source, error),
            None => {},
        }
        self.advance()
    }
}

/// Checks the directories and starts a run over them: see `Organizer::new` and
/// `Organizer::organize`.
pub fn organize(
    unorganized_dir: Vec<u8>,
    organized_dir: Vec<u8>,
    duplicates_dir: Vec<u8>,
    lay_unorganized_dir: Vec<u8>,
    lay_organized_dir: Vec<u8>,
    lay_duplicates_dir: Vec<u8>,
) -> (r: Result<(Organizer, Action), SetupError>)
    ensures
        r is Err <==> unorganized_dir@ == duplicates_dir@ || organized_dir@ == duplicates_dir@,
        r matches Ok((o, _)) ==> o.wf() && o.counters == OrganizeCounters::zero() && !o.canceled
            && o.unorganized_dir == unorganized_dir && o.organized_dir == organized_dir
            && o.duplicates_dir == duplicates_dir,
{
    let mut organizer = Organizer::new(
        unorganized_dir,
        organized_dir,
        duplicates_dir,
        lay_unorganized_dir,
        lay_organized_dir,
        lay_duplicates_dir,
    )?;
    let first = organizer.organize();
    Ok((organizer, first))
}

} // verus!
