//! Settings of a run, as the configuration file gives them.
use crate::organizer::OrganizeEvent;
use vstd::prelude::*;

verus! {

/// The three directories of a run.
pub struct ConfigDirectories {
    pub unorganized: Vec<u8>,
    pub organized: Vec<u8>,
    pub duplicates: Vec<u8>,
}

/// How a run reports progress, and whether a file error stops it.
pub struct ConfigOptions {
    /// `none`, `compact`, or anything else for the full report.
    pub output: String,
    pub stop_on_error: bool,
}

pub struct Config {
    pub directories: ConfigDirectories,
    pub options: ConfigOptions,
}

impl ConfigOptions {
    /// Whether the run goes on after `event`: it stops on a file error when
    /// the options ask for that.
    pub fn keep_going(&self, event: &OrganizeEvent) -> (r: bool)
        ensures
            r == !(self.stop_on_error && event is FileError),
    {
        match event {
            OrganizeEvent::FileError { .. } => !self.stop_on_error,
            _ => true,
        }
    }
}

/// The progress mark of `event` in the compact report: `.` moved, `*`
/// duplicate moved, `_` already in place, `^` skipped, `!` error.
pub fn compact_symbol(event: &OrganizeEvent) -> (r: Option<char>)
    ensures
        r == match *event {
            OrganizeEvent::PhotoMoved { .. } => Some('.'),
            OrganizeEvent::DuplicatePhotoMoved { .. } => Some('*'),
            OrganizeEvent::PhotoNoOp { .. } => Some('_'),
            OrganizeEvent::FileSkipped { .. } => Some('^'),
            OrganizeEvent::FileError { .. } => Some('!'),
            _ => None::<char>,
        },
{
    match event {
        OrganizeEvent::PhotoMoved { .. } => Some('.'),
        OrganizeEvent::DuplicatePhotoMoved { .. } => Some('*'),
        OrganizeEvent::PhotoNoOp { .. } => Some('_'),
        OrganizeEvent::FileSkipped { .. } => Some('^'),
        OrganizeEvent::FileError { .. } => Some('!'),
        _ => None,
    }
}

} // verus!
