//! Relocates photo files from an unorganized tree into a date-based layout,
//! setting exact duplicates aside under their content hash.

pub mod config;
pub mod datetime;
pub mod exif_time;
pub mod file_hash;
pub mod listing;
pub mod organizer;
pub mod paths;
pub mod photo_date_time;
