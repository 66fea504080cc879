//! The policy that picks the one instant a photo was taken.
use crate::datetime::{civil_from_epoch, is_earlier, PhotoDateTime, MAX_EPOCH_SECONDS, NANOS_PER_SECOND};
use crate::exif_time::{read_exif_times, ExifTimes};
use vstd::prelude::*;

verus! {

/// A filesystem timestamp: time since 1970-01-01T00:00:00 UTC.
#[derive(Clone, Copy, Debug, PartialEq, Eq, Structural)]
pub struct FileTime {
    pub secs: u64,
    pub nanos: u32,
}

impl FileTime {
    pub open spec fn in_range(&self) -> bool {
        self.secs <= MAX_EPOCH_SECONDS && self.nanos < NANOS_PER_SECOND
    }

    pub open spec fn instant(&self) -> int {
        self.secs * 1_000_000_000 + self.nanos
    }
}

/// Why the date-times of a file could not be gathered.
#[derive(Clone, Copy, Debug, PartialEq, Eq, Structural)]
pub enum TimeError {
    /// A filesystem timestamp lies beyond the supported calendar range.
    OutOfRange,
}

/// Date-time information for a photo.
#[derive(Clone, Copy, Debug)]
pub struct PhotoDateTimeInfo {
    /// When the file was created.
    pub created: PhotoDateTime,
    /// When the file was last modified.
    pub modified: PhotoDateTime,
    /// EXIF `DateTime`: when the photo was taken (least precise).
    pub exif_base: Option<PhotoDateTime>,
    /// EXIF `DateTimeOriginal`: when the photo was originally taken (most precise).
    pub exif_original: Option<PhotoDateTime>,
    /// EXIF `DateTimeDigitized`: when the photo was stored by the camera.
    pub exif_digitized: Option<PhotoDateTime>,
}

impl PhotoDateTimeInfo {
    pub open spec fn wf(&self) -> bool {
        &&& self.created.wf()
        &&& self.modified.wf()
        &&& (self.exif_base matches Some(d) ==> d.wf())
        &&& (self.exif_original matches Some(d) ==> d.wf())
        &&& (self.exif_digitized matches Some(d) ==> d.wf())
    }

    /// The taken date-time: EXIF original, else digitized, else base, else the
    /// earlier of the creation and modification times.
    pub open spec fn best_spec(&self) -> PhotoDateTime {
        if let Some(d) = self.exif_original {
            d
        } else if let Some(d) = self.exif_digitized {
            d
        } else if let Some(d) = self.exif_base {
            d
        } else if self.created.instant() < self.modified.instant() {
            self.created
        } else {
            self.modified
        }
    }

    /// Finds the date-time that is best to use as the taken date-time.
    pub fn best(&self) -> (r: PhotoDateTime)
        requires
            self.wf(),
        ensures
            r == self.best_spec(),
            r.wf(),
    {
        if let Some(d) = self.exif_original {
            return d;
        }
        if let Some(d) = self.exif_digitized {
            return d;
        }
        if let Some(d) = self.exif_base {
            return d;
        }
        if is_earlier(&self.created, &self.modified) {
            self.created
        } else {
            self.modified
        }
    }

    /// Gathers the date-times of a photo from its filesystem timestamps and
    /// the EXIF metadata in its bytes. Missing or unreadable EXIF data is no
    /// error; a timestamp beyond the calendar range is.
    pub fn load(created: FileTime, modified: FileTime, contents: &[u8]) -> (r: Result<
        PhotoDateTimeInfo,
        TimeError,
    >)
        ensures
            r is Ok <==> created.in_range() && modified.in_range(),
            r matches Ok(info) ==> info.wf() && info.created.instant() == created.instant()
                && info.modified.instant() == modified.instant() && (ExifTimes {
                base: info.exif_base,
                original: info.exif_original,
                digitized: info.exif_digitized,
            }).read_from(contents@),
    {
        if created.secs > MAX_EPOCH_SECONDS as u64 || created.nanos >= 1_000_000_000
            || modified.secs > MAX_EPOCH_SECONDS as u64 || modified.nanos >= 1_000_000_000 {
            return Err(TimeError::OutOfRange);
        }
        let c = match civil_from_epoch(created.secs as i64, created.nanos) {
            Some(d) => d,
            None => return Err(TimeError::OutOfRange),
        };
        let m = match civil_from_epoch(modified.secs as i64, modified.nanos) {
            Some(d) => d,
            None => return Err(TimeError::OutOfRange),
        };
        let exif: ExifTimes = read_exif_times(contents);
        Ok(
            PhotoDateTimeInfo {
                created: c,
                modified: m,
                exif_base: exif.base,
                exif_original: exif.original,
                exif_digitized: exif.digitized,
            },
        )
    }
}

} // verus!
