//! Photo timestamps read from embedded EXIF metadata.
use crate::datetime::{ExifDateTime, PhotoDateTime};
use vstd::prelude::*;

verus! {

/// The EXIF tags the timestamp policy reads.
#[derive(Clone, Copy, Debug, PartialEq, Eq, Structural)]
pub enum ExifTag {
    DateTime,
    SubSecTime,
    DateTimeOriginal,
    SubSecTimeOriginal,
    DateTimeDigitized,
    SubSecTimeDigitized,
}

impl ExifTag {
    /// The tag's number in the EXIF standard.
    pub open spec fn code(self) -> int {
        match self {
            ExifTag::DateTime => 0x0132,
            ExifTag::SubSecTime => 0x9290,
            ExifTag::DateTimeOriginal => 0x9003,
            ExifTag::SubSecTimeOriginal => 0x9291,
            ExifTag::DateTimeDigitized => 0x9004,
            ExifTag::SubSecTimeDigitized => 0x9292,
        }
    }
}

/// The first ASCII line of the tag numbered `tag` in the primary image of the
/// EXIF data that `bytes` (a JPEG, PNG, TIFF, HEIF or WebP image) carries, if
/// it carries EXIF data and the tag is there as ASCII.
pub uninterp spec fn exif_line(bytes: Seq<u8>, tag: int) -> Option<Seq<u8>>;

/// The views of an optional byte vector.
pub open spec fn opt_view(o: Option<Vec<u8>>) -> Option<Seq<u8>> {
    match o {
        Some(v) => Some(v@),
        None => None,
    }
}

pub open spec fn is_digit(b: u8) -> bool {
    48 <= b <= 57
}

pub open spec fn all_digits(s: Seq<u8>) -> bool {
    forall|i: int| 0 <= i < s.len() ==> is_digit(#[trigger] s[i])
}

/// The number that a run of ASCII decimal digits denotes.
pub open spec fn decimal_value(s: Seq<u8>) -> int
    decreases s.len(),
{
    if s.len() == 0 {
        0
    } else {
        decimal_value(s.drop_last()) * 10 + (s.last() - 48)
    }
}

/// Whether `line` starts with an EXIF date-time, `YYYY:MM:DD HH:MM:SS`.
pub open spec fn exif_datetime_shape(line: Seq<u8>) -> bool {
    &&& line.len() >= 19
    &&& line[4] == 58 && line[7] == 58 && line[10] == 32 && line[13] == 58 && line[16] == 58
    &&& all_digits(line.subrange(0, 4))
    &&& all_digits(line.subrange(5, 7))
    &&& all_digits(line.subrange(8, 10))
    &&& all_digits(line.subrange(11, 13))
    &&& all_digits(line.subrange(14, 16))
    &&& all_digits(line.subrange(17, 19))
}

/// The fields of an EXIF date-time, as written and not range-checked.
pub open spec fn exif_datetime_fields(line: Seq<u8>) -> ExifDateTime {
    ExifDateTime {
        year: decimal_value(line.subrange(0, 4)) as u16,
        month: decimal_value(line.subrange(5, 7)) as u8,
        day: decimal_value(line.subrange(8, 10)) as u8,
        hour: decimal_value(line.subrange(11, 13)) as u8,
        minute: decimal_value(line.subrange(14, 16)) as u8,
        second: decimal_value(line.subrange(17, 19)) as u8,
        nanosecond: None,
        offset: None,
    }
}

/// The value of an unsigned decimal integer text: an optional `+`, then one or
/// more digits, of at most `u32::MAX`.
pub open spec fn unsigned_value(s: Seq<u8>) -> Option<u32> {
    let body = if s.len() > 0 && s[0] == 43 {
        s.subrange(1, s.len() as int)
    } else {
        s
    };
    if body.len() > 0 && all_digits(body) && decimal_value(body) <= u32::MAX {
        Some(decimal_value(body) as u32)
    } else {
        None
    }
}

/// Relies on kamadak-exif's `Reader::read_from_container` and
/// `Exif::get_field`: the first ASCII line of `tag` in the primary image of the
/// EXIF data in `bytes`, if there is one.
#[verifier::external_body]
fn exif_ascii_line(bytes: &[u8], tag: ExifTag) -> (r: Option<Vec<u8>>)
    ensures
        opt_view(r) == exif_line(bytes@, tag.code()),
{
    let data = exif::Reader::new().read_from_container(&mut std::io::Cursor::new(bytes)).ok()?;
    let tag = match tag {
        ExifTag::DateTime => exif::Tag::DateTime,
        ExifTag::SubSecTime => exif::Tag::SubSecTime,
        ExifTag::DateTimeOriginal => exif::Tag::DateTimeOriginal,
        ExifTag::SubSecTimeOriginal => exif::Tag::SubSecTimeOriginal,
        ExifTag::DateTimeDigitized => exif::Tag::DateTimeDigitized,
        ExifTag::SubSecTimeDigitized => exif::Tag::SubSecTimeDigitized,
    };
    match &data.get_field(tag, exif::In::PRIMARY)?.value {
        exif::Value::Ascii(lines) => lines.first().cloned(),
        _ => None,
    }
}

/// Relies on kamadak-exif's `DateTime::from_ascii`: it accepts a line of at
/// least 19 bytes with digits and delimiters as in `YYYY:MM:DD HH:MM:SS`, and
/// reads the six numbers without checking their ranges.
#[verifier::external_body]
fn parse_exif_datetime(line: &[u8]) -> (r: Option<ExifDateTime>)
    ensures
        r == (if exif_datetime_shape(line@) {
            Some(exif_datetime_fields(line@))
        } else {
            None
        }),
{
    let d = exif::DateTime::from_ascii(line).ok()?;
    let (year, month, day, hour, minute, second) = (d.year, d.month, d.day, d.hour, d.minute, d.second);
    Some(ExifDateTime { year, month, day, hour, minute, second, nanosecond: d.nanosecond, offset: d.offset })
}

proof fn lemma_decimal_value_nonneg(s: Seq<u8>)
    requires
        all_digits(s),
    ensures
        decimal_value(s) >= 0,
    decreases s.len(),
{
    if s.len() > 0 {
        assert(all_digits(s.drop_last()));
        lemma_decimal_value_nonneg(s.drop_last());
        assert(is_digit(s[s.len() - 1]));
    }
}

proof fn lemma_decimal_value_grows(s: Seq<u8>, i: int)
    requires
        0 <= i <= s.len(),
        all_digits(s),
    ensures
        decimal_value(s.subrange(0, i)) <= decimal_value(s),
    decreases s.len() - i,
{
    if i < s.len() {
        lemma_decimal_value_grows(s, i + 1);
        let p = s.subrange(0, i + 1);
        assert(p.drop_last() =~= s.subrange(0, i));
        assert(all_digits(p.drop_last()));
        lemma_decimal_value_nonneg(p.drop_last());
        assert(is_digit(p[i]));
    } else {
        assert(s.subrange(0, i) =~= s);
    }
}

/// Reads an unsigned decimal integer, as `str::parse::<u32>` does.
pub fn parse_u32(s: &[u8]) -> (r: Option<u32>)
    ensures
        r == unsigned_value(s@),
{
    let start: usize = if s.len() > 0 && s[0] == 43 { 1 } else { 0 };
    let ghost body = if s@.len() > 0 && s@[0] == 43 {
        s@.subrange(1, s@.len() as int)
    } else {
        s@
    };
    assert(body =~= s@.subrange(start as int, s@.len() as int));
    if start == s.len() {
        return None;
    }
    let mut value: u32 = 0;
    let mut i: usize = start;
    while i < s.len()
        invariant
            start <= i <= s.len(),
            body =~= s@.subrange(start as int, s@.len() as int),
            body == (if s@.len() > 0 && s@[0] == 43 {
                s@.subrange(1, s@.len() as int)
            } else {
                s@
            }),
            all_digits(body.subrange(0, i - start)),
            value == decimal_value(body.subrange(0, i - start)),
        decreases s.len() - i,
    {
        let c = s[i];
        let ghost prefix = body.subrange(0, i + 1 - start);
        assert(prefix.drop_last() =~= body.subrange(0, i - start));
        if c < 48 || c > 57 {
            assert(body[i - start] == c);
            assert(!is_digit(body[i - start]));
            assert(!all_digits(body));
            return None;
        }
        let digit: u32 = (c - 48) as u32;
        if value > (u32::MAX - digit) / 10 {
            proof {
                assert(value * 10 + digit > u32::MAX) by (nonlinear_arith)
                    requires
                        value > (u32::MAX - digit) / 10,
                        digit <= 9,
                ;
                assert(prefix.last() == c);
                assert(decimal_value(prefix) == value * 10 + digit);
                assert(all_digits(prefix));
                if all_digits(body) {
                    lemma_decimal_value_grows(body, i + 1 - start);
                }
            }
            return None;
        }
        value = value * 10 + digit;
        i = i + 1;
    }
    assert(body.subrange(0, i - start) =~= body);
    Some(value)
}

/// The extra nanoseconds a sub-second line contributes: its number, read as
/// milliseconds, when it parses.
pub open spec fn subsec_nanos(line: Option<Seq<u8>>) -> int {
    match line {
        Some(l) => match unsigned_value(l) {
            Some(v) => v * 1_000_000,
            None => 0,
        },
        None => 0,
    }
}

pub open spec fn offset_nanos(d: ExifDateTime) -> int {
    match d.offset {
        Some(m) => m * 60_000_000_000,
        None => 0,
    }
}

/// The UTC instant of an EXIF date-time line and its sub-second line.
pub open spec fn exif_instant_of(line: Seq<u8>, subsec: Option<Seq<u8>>) -> int {
    let d = exif_datetime_fields(line);
    d.carried_instant() + offset_nanos(d) + subsec_nanos(subsec)
}

/// `r` is what a date-time line and its sub-second line resolve to: a valid
/// date-time at `exif_instant_of` when the line has the EXIF shape, else none.
pub open spec fn resolves(r: Option<PhotoDateTime>, line: Option<Seq<u8>>, subsec: Option<Seq<u8>>) -> bool {
    match line {
        Some(l) => if exif_datetime_shape(l) {
            r is Some && r.unwrap().wf() && r.unwrap().instant() == exif_instant_of(l, subsec)
        } else {
            r is None
        },
        None => r is None,
    }
}

/// Resolves one EXIF date-time tag and its sub-second tag to a UTC date-time:
/// the fields are normalized, the offset (in minutes) is added, and the
/// sub-second number is added as milliseconds.
pub fn exif_date_time(date_line: &Option<Vec<u8>>, subsec_line: &Option<Vec<u8>>) -> (r: Option<
    PhotoDateTime,
>)
    ensures
        resolves(r, opt_view(*date_line), opt_view(*subsec_line)),
{
    let line = match date_line {
        Some(l) => l,
        None => return None,
    };
    let fields = match parse_exif_datetime(line.as_slice()) {
        Some(f) => f,
        None => return None,
    };
    let millis: u32 = match subsec_line {
        Some(s) => match parse_u32(s.as_slice()) {
            Some(v) => v,
            None => 0,
        },
        None => 0,
    };
    let offset: i64 = match fields.offset {
        Some(m) => m as i64 * 60_000_000_000,
        None => 0,
    };
    let start = fields.normalized();
    Some(start.shifted(offset + millis as i64 * 1_000_000))
}

/// The three EXIF date-times of a photo, when its bytes carry them.
pub struct ExifTimes {
    /// `DateTime` with `SubSecTime`: when the file was last changed.
    pub base: Option<PhotoDateTime>,
    /// `DateTimeOriginal` with `SubSecTimeOriginal`: when the photo was taken.
    pub original: Option<PhotoDateTime>,
    /// `DateTimeDigitized` with `SubSecTimeDigitized`: when it was stored.
    pub digitized: Option<PhotoDateTime>,
}

impl ExifTimes {
    /// The three date-times are those the EXIF data in `bytes` resolves to.
    pub open spec fn read_from(&self, bytes: Seq<u8>) -> bool {
        &&& resolves(
            self.base,
            exif_line(bytes, ExifTag::DateTime.code()),
            exif_line(bytes, ExifTag::SubSecTime.code()),
        )
        &&& resolves(
            self.original,
            exif_line(bytes, ExifTag::DateTimeOriginal.code()),
            exif_line(bytes, ExifTag::SubSecTimeOriginal.code()),
        )
        &&& resolves(
            self.digitized,
            exif_line(bytes, ExifTag::DateTimeDigitized.code()),
            exif_line(bytes, ExifTag::SubSecTimeDigitized.code()),
        )
    }

    pub open spec fn wf(&self) -> bool {
        &&& (self.base matches Some(d) ==> d.wf())
        &&& (self.original matches Some(d) ==> d.wf())
        &&& (self.digitized matches Some(d) ==> d.wf())
    }
}

fn tag_date_time(bytes: &[u8], date_tag: ExifTag, subsec_tag: ExifTag) -> (r: Option<
    PhotoDateTime,
>)
    ensures
        resolves(r, exif_line(bytes@, date_tag.code()), exif_line(bytes@, subsec_tag.code())),
{
    let line = exif_ascii_line(bytes, date_tag);
    let subsec = exif_ascii_line(bytes, subsec_tag);
    exif_date_time(&line, &subsec)
}

/// Reads the EXIF date-times out of a photo's bytes: `DateTime` with
/// `SubSecTime`, `DateTimeOriginal` with `SubSecTimeOriginal`, and
/// `DateTimeDigitized` with `SubSecTimeDigitized`. Bytes without readable
/// EXIF data give no date-times; that is not an error.
pub fn read_exif_times(bytes: &[u8]) -> (r: ExifTimes)
    ensures
        r.read_from(bytes@),
        r.wf(),
{
    ExifTimes {
        base: tag_date_time(bytes, ExifTag::DateTime, ExifTag::SubSecTime),
        original: tag_date_time(bytes, ExifTag::DateTimeOriginal, ExifTag::SubSecTimeOriginal),
        digitized: tag_date_time(bytes, ExifTag::DateTimeDigitized, ExifTag::SubSecTimeDigitized),
    }
}

} // verus!
