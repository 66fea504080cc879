use photiso::datetime::{ExifDateTime, PhotoDateTime};
use photiso::exif_time::{exif_date_time, parse_u32};
use photiso::file_hash::{are_same_file_contents, get_file_hash};
use photiso::listing::sorted;
use photiso::paths::{
    decry_path, extension_of, get_duplicate_photo_path, get_organized_photo_path,
    is_excluded_file, is_photo_file, lowercase,
};
use photiso::photo_date_time::{FileTime, PhotoDateTimeInfo, TimeError};

fn dt(year: i32, month: u32, day: u32, hour: u32, minute: u32, second: u32, nanosecond: u32) -> PhotoDateTime {
    PhotoDateTime { year, month, day, hour, minute, second, nanosecond }
}

fn raw(year: u16, month: u8, day: u8, hour: u8, minute: u8, second: u8) -> ExifDateTime {
    ExifDateTime { year, month, day, hour, minute, second, nanosecond: None, offset: None }
}

#[test]
fn day_past_end_of_april_carries_into_may() {
    assert_eq!(raw(2021, 4, 32, 12, 0, 0).normalized(), dt(2021, 5, 2, 12, 0, 0, 0));
}

#[test]
fn minute_overflow_carries_into_hour() {
    assert_eq!(raw(2021, 6, 10, 8, 75, 0).normalized(), dt(2021, 6, 10, 9, 15, 0, 0));
}

#[test]
fn overflow_carries_across_year_end() {
    assert_eq!(raw(2020, 12, 31, 23, 59, 60).normalized(), dt(2021, 1, 1, 0, 0, 0, 0));
}

#[test]
fn leap_day_is_kept_in_leap_year() {
    assert_eq!(raw(2020, 2, 29, 0, 0, 0).normalized(), dt(2020, 2, 29, 0, 0, 0, 0));
}

#[test]
fn february_29_of_common_year_is_march_1() {
    assert_eq!(raw(2021, 2, 29, 0, 0, 0).normalized(), dt(2021, 3, 1, 0, 0, 0, 0));
}

#[test]
fn month_13_is_january_of_next_year() {
    assert_eq!(raw(2019, 13, 5, 1, 2, 3).normalized(), dt(2020, 1, 5, 1, 2, 3, 0));
}

#[test]
fn day_zero_is_last_day_of_previous_month() {
    assert_eq!(raw(2020, 3, 0, 0, 0, 0).normalized(), dt(2020, 2, 29, 0, 0, 0, 0));
}

#[test]
fn nanosecond_overflow_carries_into_seconds() {
    let mut r = raw(2020, 1, 1, 0, 0, 59);
    r.nanosecond = Some(1_500_000_000);
    assert_eq!(r.normalized(), dt(2020, 1, 1, 0, 1, 0, 500_000_000));
}

#[test]
fn normalizing_a_valid_date_time_keeps_it() {
    let once = raw(2021, 4, 32, 25, 61, 61).normalized();
    let again = raw(
        once.year as u16,
        once.month as u8,
        once.day as u8,
        once.hour as u8,
        once.minute as u8,
        once.second as u8,
    )
    .normalized();
    assert_eq!(once, again);
    assert_eq!(once, dt(2021, 5, 3, 2, 2, 1, 0));
}

#[test]
fn shifted_crosses_midnight() {
    let d = dt(2020, 12, 31, 23, 59, 59, 900_000_000);
    assert_eq!(d.shifted(200_000_000), dt(2021, 1, 1, 0, 0, 0, 100_000_000));
    assert_eq!(d.shifted(-60_000_000_000), dt(2020, 12, 31, 23, 58, 59, 900_000_000));
}

#[test]
fn parse_u32_accepts_digits_and_plus() {
    assert_eq!(parse_u32(b"500"), Some(500));
    assert_eq!(parse_u32(b"+7"), Some(7));
    assert_eq!(parse_u32(b"007"), Some(7));
    assert_eq!(parse_u32(b"4294967295"), Some(u32::MAX));
}

#[test]
fn parse_u32_rejects_other_text() {
    assert_eq!(parse_u32(b""), None);
    assert_eq!(parse_u32(b"+"), None);
    assert_eq!(parse_u32(b"-1"), None);
    assert_eq!(parse_u32(b"12a"), None);
    assert_eq!(parse_u32(b"4294967296"), None);
}

#[test]
fn exif_date_time_with_subseconds() {
    let r = exif_date_time(&Some(b"2020:05:01 10:00:00".to_vec()), &Some(b"500".to_vec()));
    assert_eq!(r, Some(dt(2020, 5, 1, 10, 0, 0, 500_000_000)));
}

#[test]
fn exif_date_time_out_of_range_fields() {
    let r = exif_date_time(&Some(b"2021:04:32 10:75:00".to_vec()), &None);
    assert_eq!(r, Some(dt(2021, 5, 2, 11, 15, 0, 0)));
}

#[test]
fn exif_date_time_rejects_malformed_lines() {
    assert_eq!(exif_date_time(&Some(b"2020-05-01 10:00:00".to_vec()), &None), None);
    assert_eq!(exif_date_time(&Some(b"    :  :     :  :  ".to_vec()), &None), None);
    assert_eq!(exif_date_time(&Some(b"2020:05:01".to_vec()), &None), None);
    assert_eq!(exif_date_time(&None, &Some(b"5".to_vec())), None);
}

#[test]
fn unparsable_subseconds_are_ignored() {
    let r = exif_date_time(&Some(b"2020:05:01 10:00:00".to_vec()), &Some(b"x5".to_vec()));
    assert_eq!(r, Some(dt(2020, 5, 1, 10, 0, 0, 0)));
}

fn info(created: PhotoDateTime, modified: PhotoDateTime) -> PhotoDateTimeInfo {
    PhotoDateTimeInfo { created, modified, exif_base: None, exif_original: None, exif_digitized: None }
}

#[test]
fn best_prefers_original_then_digitized_then_base() {
    let a = dt(2001, 1, 1, 0, 0, 0, 0);
    let b = dt(2002, 1, 1, 0, 0, 0, 0);
    let c = dt(2003, 1, 1, 0, 0, 0, 0);
    let mut i = info(dt(2010, 1, 1, 0, 0, 0, 0), dt(2011, 1, 1, 0, 0, 0, 0));
    i.exif_base = Some(a);
    assert_eq!(i.best(), a);
    i.exif_digitized = Some(b);
    assert_eq!(i.best(), b);
    i.exif_original = Some(c);
    assert_eq!(i.best(), c);
}

#[test]
fn best_falls_back_to_earlier_file_time() {
    let early = dt(2010, 1, 1, 0, 0, 0, 0);
    let late = dt(2010, 1, 1, 0, 0, 0, 1);
    assert_eq!(info(early, late).best(), early);
    assert_eq!(info(late, early).best(), early);
}

#[test]
fn load_converts_file_times() {
    let t = FileTime { secs: 1_588_327_200, nanos: 5 };
    let i = PhotoDateTimeInfo::load(t, FileTime { secs: 0, nanos: 0 }, b"not a photo").unwrap();
    assert_eq!(i.created, dt(2020, 5, 1, 10, 0, 0, 5));
    assert_eq!(i.modified, dt(1970, 1, 1, 0, 0, 0, 0));
    assert!(i.exif_original.is_none() && i.exif_base.is_none() && i.exif_digitized.is_none());
    assert_eq!(i.best(), dt(1970, 1, 1, 0, 0, 0, 0));
}

#[test]
fn load_rejects_times_out_of_range() {
    let t = FileTime { secs: u64::MAX, nanos: 0 };
    let r = PhotoDateTimeInfo::load(t, t, b"");
    assert_eq!(r.err(), Some(TimeError::OutOfRange));
}

#[test]
fn organized_path_layout() {
    let d = dt(2020, 5, 1, 10, 0, 0, 500_000_000);
    let p = get_organized_photo_path(b"/in/a.JPG", &d, 0, b"/out");
    assert_eq!(p, b"/out/2020/05/2020-05-01 10-00-00-500000000.jpg".to_vec());
    let p = get_organized_photo_path(b"/in/a.JPG", &d, 7, b"/out/");
    assert_eq!(p, b"/out/2020/05/2020-05-01 10-00-00-500000000 007.jpg".to_vec());
    let p = get_organized_photo_path(b"/in/a.png", &dt(812, 11, 3, 4, 5, 6, 7), 1234, b"/o");
    assert_eq!(p, b"/o/0812/11/0812-11-03 04-05-06-000000007 1234.png".to_vec());
}

#[test]
fn duplicate_path_layout() {
    let d = dt(2020, 5, 1, 10, 0, 0, 0);
    let p = get_duplicate_photo_path(b"/in/a.Jpeg", &d, b"ABCD", 0, b"/dup");
    assert_eq!(p, b"/dup/2020/05/ABCD.jpeg".to_vec());
    let p = get_duplicate_photo_path(b"/in/a.Jpeg", &d, b"ABCD", 2, b"/dup");
    assert_eq!(p, b"/dup/2020/05/ABCD.002.jpeg".to_vec());
}

#[test]
fn year_outside_four_digits_is_signed() {
    let p = get_organized_photo_path(b"x.gif", &dt(-1, 12, 31, 0, 0, 0, 0), 0, b"/o");
    assert_eq!(p, b"/o/-0001/12/-0001-12-31 00-00-00-000000000.gif".to_vec());
    let p = get_organized_photo_path(b"x.gif", &dt(10000, 1, 1, 0, 0, 0, 0), 0, b"/o");
    assert_eq!(p, b"/o/+10000/01/+10000-01-01 00-00-00-000000000.gif".to_vec());
}

#[test]
fn extensions_and_photo_files() {
    assert_eq!(extension_of(b"/a/b.tar.GZ"), Some(b"GZ".to_vec()));
    assert_eq!(extension_of(b"/a/.hidden"), None);
    assert_eq!(extension_of(b"/a.b/c"), None);
    assert_eq!(lowercase(b"JpEg1"), b"jpeg1".to_vec());
    for name in ["x.bmp", "x.GIF", "x.jpg", "x.JPEG", "x.png", "x.Tif", "x.tiff", "x.wmp"] {
        assert!(is_photo_file(name.as_bytes()), "{}", name);
    }
    for name in ["x.txt", "x", "x.jpgx", ".jpg", "dir.jpg/x"] {
        assert!(!is_photo_file(name.as_bytes()), "{}", name);
    }
}

#[test]
fn exclamation_mark_in_stem_excludes() {
    assert!(is_excluded_file(b"/p/keep!.jpg"));
    assert!(is_excluded_file(b"/p/!x.jpg"));
    assert!(!is_excluded_file(b"/p!/x.jpg"));
    assert!(!is_excluded_file(b"/p/x.jp!g"));
}

#[test]
fn sha256_hash_of_abc() {
    assert_eq!(
        get_file_hash(b"abc"),
        b"BA7816BF8F01CFEA414140DE5DAE2223B00361A396177A9CB410FF61F20015AD".to_vec()
    );
}

#[test]
fn same_contents_needs_same_length_and_hash() {
    assert_eq!(are_same_file_contents(b"abc", b"abc"), Some(get_file_hash(b"abc")));
    assert_eq!(are_same_file_contents(b"abc", b"abd"), None);
    assert_eq!(are_same_file_contents(b"abc", b"abcd"), None);
}

#[test]
fn entries_sort_bytewise() {
    let v = vec![b"b".to_vec(), b"a/c".to_vec(), b"a".to_vec(), b"B".to_vec(), b"ab".to_vec()];
    let r = sorted(v);
    assert_eq!(r, vec![b"B".to_vec(), b"a".to_vec(), b"a/c".to_vec(), b"ab".to_vec(), b"b".to_vec()]);
}

#[test]
fn decry_path_restores_lay_base() {
    assert_eq!(decry_path(b"/real/in/x.jpg", b"/real/in", b"in"), b"in/x.jpg".to_vec());
    assert_eq!(decry_path(b"/real/in", b"/real/in", b"./in"), b"./in".to_vec());
    assert_eq!(decry_path(b"/real/input/x", b"/real/in", b"in"), b"/real/input/x".to_vec());
    assert_eq!(decry_path(b"/x", b"/", b"root/"), b"root/x".to_vec());
}
