//! Byte-string paths: their parts, and the destinations of organized and
//! duplicate photos.
use crate::datetime::PhotoDateTime;
use crate::exif_time::decimal_value;
use vstd::prelude::*;

verus! {

pub const SLASH: u8 = 47;

pub const DOT: u8 = 46;

pub const BANG: u8 = 33;

/// The position of the last `b` in `s`, or -1.
pub open spec fn last_index_of(s: Seq<u8>, b: u8) -> int
    decreases s.len(),
{
    if s.len() == 0 {
        -1
    } else if s.last() == b {
        s.len() - 1
    } else {
        last_index_of(s.drop_last(), b)
    }
}

/// The last component of a path.
pub open spec fn file_name(p: Seq<u8>) -> Seq<u8> {
    p.subrange(last_index_of(p, SLASH) + 1, p.len() as int)
}

pub open spec fn is_dot_dot(n: Seq<u8>) -> bool {
    n == seq![DOT, DOT]
}

/// The extension of a path: what follows the last `.` of its file name, unless
/// that dot opens the name or the name is `..`.
pub open spec fn extension(p: Seq<u8>) -> Option<Seq<u8>> {
    let n = file_name(p);
    let k = last_index_of(n, DOT);
    if k <= 0 || is_dot_dot(n) {
        None
    } else {
        Some(n.subrange(k + 1, n.len() as int))
    }
}

/// The file name without its extension.
pub open spec fn file_stem(p: Seq<u8>) -> Seq<u8> {
    let n = file_name(p);
    let k = last_index_of(n, DOT);
    if k <= 0 || is_dot_dot(n) {
        n
    } else {
        n.subrange(0, k)
    }
}

pub open spec fn lower_byte(b: u8) -> u8 {
    if 65 <= b <= 90 {
        (b + 32) as u8
    } else {
        b
    }
}

/// ASCII letters made lower case; every other byte kept.
pub open spec fn lowered(s: Seq<u8>) -> Seq<u8> {
    s.map_values(|b: u8| lower_byte(b))
}

/// The extensions of photo files, in lower case.
pub open spec fn is_photo_extension(e: Seq<u8>) -> bool {
    let l = lowered(e);
    ||| l == seq![98u8, 109, 112]  // bmp
    ||| l == seq![103u8, 105, 102]  // gif
    ||| l == seq![106u8, 112, 103]  // jpg
    ||| l == seq![106u8, 112, 101, 103]  // jpeg
    ||| l == seq![112u8, 110, 103]  // png
    ||| l == seq![116u8, 105, 102]  // tif
    ||| l == seq![116u8, 105, 102, 102]  // tiff
    ||| l == seq![119u8, 109, 112]  // wmp
}

/// A path whose extension is that of a photo.
pub open spec fn is_photo_path(p: Seq<u8>) -> bool {
    extension(p) matches Some(e) && is_photo_extension(e)
}

/// A path whose file stem holds a `!`: the owner asked for it to be left alone.
pub open spec fn is_excluded_path(p: Seq<u8>) -> bool {
    file_stem(p).contains(BANG)
}

/// `base` and `part` joined by one separator.
pub open spec fn join(base: Seq<u8>, part: Seq<u8>) -> Seq<u8> {
    if base.len() > 0 && base.last() == SLASH {
        base + part
    } else {
        base.push(SLASH) + part
    }
}

/// The decimal digits of `n`.
pub open spec fn decimal(n: nat) -> Seq<u8>
    decreases n,
{
    if n < 10 {
        seq![(48 + n) as u8]
    } else {
        decimal(n / 10).push((48 + n % 10) as u8)
    }
}

/// The decimal digits of `n`, with leading zeros up to `width` digits.
pub open spec fn padded(n: nat, width: nat) -> Seq<u8> {
    let d = decimal(n);
    if d.len() < width {
        Seq::new((width - d.len()) as nat, |i: int| 48u8) + d
    } else {
        d
    }
}

/// A year as four digits, with a sign outside 0 through 9999.
pub open spec fn year_text(y: int) -> Seq<u8> {
    if 0 <= y <= 9999 {
        padded(y as nat, 4)
    } else if y < 0 {
        seq![45u8] + padded((-y) as nat, 4)
    } else {
        seq![43u8] + padded(y as nat, 4)
    }
}

/// A separator followed by a zero-padded number.
pub open spec fn field_text(sep: u8, n: nat, width: nat) -> Seq<u8> {
    seq![sep] + padded(n, width)
}

/// `YYYY-MM-DD HH-MM-SS-fffffffff`.
pub open spec fn timestamp_text(d: PhotoDateTime) -> Seq<u8> {
    year_text(d.year as int) + field_text(45, d.month as nat, 2) + field_text(45, d.day as nat, 2)
        + field_text(32, d.hour as nat, 2) + field_text(45, d.minute as nat, 2) + field_text(
        45,
        d.second as nat,
        2,
    ) + field_text(45, d.nanosecond as nat, 9)
}

/// `<root>/<YYYY>/<MM>`: the folder of a photo taken at `d`.
pub open spec fn month_folder(root: Seq<u8>, d: PhotoDateTime) -> Seq<u8> {
    join(join(root, year_text(d.year as int)), padded(d.month as nat, 2))
}

/// The organized file name: the timestamp, then ` NNN` when `conflict` is not
/// zero, then the extension in lower case.
pub open spec fn organized_name(d: PhotoDateTime, conflict: nat, ext: Seq<u8>) -> Seq<u8> {
    let suffix = if conflict > 0 {
        seq![32u8] + padded(conflict, 3)
    } else {
        Seq::empty()
    };
    timestamp_text(d) + suffix + seq![DOT] + lowered(ext)
}

/// The duplicate file name: the content hash, then `.NNN` when `conflict` is
/// not zero, then the extension in lower case.
pub open spec fn duplicate_name(hash: Seq<u8>, conflict: nat, ext: Seq<u8>) -> Seq<u8> {
    let suffix = if conflict > 0 {
        seq![DOT] + padded(conflict, 3)
    } else {
        Seq::empty()
    };
    hash + suffix + seq![DOT] + lowered(ext)
}

pub open spec fn organized_path(root: Seq<u8>, d: PhotoDateTime, conflict: nat, ext: Seq<u8>) -> Seq<
    u8,
> {
    join(month_folder(root, d), organized_name(d, conflict, ext))
}

pub open spec fn duplicate_path(
    root: Seq<u8>,
    d: PhotoDateTime,
    hash: Seq<u8>,
    conflict: nat,
    ext: Seq<u8>,
) -> Seq<u8> {
    join(month_folder(root, d), duplicate_name(hash, conflict, ext))
}

/// Appends `b` to `out`.
pub fn append_bytes(out: &mut Vec<u8>, b: &[u8])
    ensures
        final(out)@ == old(out)@ + b@,
{
    let ghost start = out@;
    let mut i: usize = 0;
    while i < b.len()
        invariant
            i <= b.len(),
            out@ == start + b@.subrange(0, i as int),
        decreases b.len() - i,
    {
        out.push(b[i]);
        i = i + 1;
        assert(out@ =~= start + b@.subrange(0, i as int));
    }
    assert(b@.subrange(0, i as int) =~= b@);
}

/// Appends the decimal digits of `n` to `out`.
pub fn push_decimal(out: &mut Vec<u8>, n: u64)
    ensures
        final(out)@ == old(out)@ + decimal(n as nat),
    decreases n,
{
    if n >= 10 {
        push_decimal(out, n / 10);
    }
    out.push((48 + n % 10) as u8);
    assert(n < 10 ==> n % 10 == n);
    assert(final(out)@ =~= old(out)@ + decimal(n as nat)) by {
        if n >= 10 {
            assert(decimal(n as nat) == decimal((n / 10) as nat).push((48 + n % 10) as u8));
        }
    };
}

pub open spec fn pow10(k: nat) -> nat
    decreases k,
{
    if k == 0 {
        1
    } else {
        10 * pow10((k - 1) as nat)
    }
}

proof fn lemma_decimal_len_bound(n: nat, k: nat)
    requires
        k >= 1,
        n < pow10(k),
    ensures
        decimal(n).len() <= k,
    decreases k,
{
    if n >= 10 {
        let p = pow10((k - 1) as nat);
        assert(n / 10 < p) by (nonlinear_arith)
            requires
                n < 10 * p,
        ;
        if k == 1 {
            assert(p == 1);
        } else {
            lemma_decimal_len_bound(n / 10, (k - 1) as nat);
        }
    }
}

/// The number of decimal digits of `n`.
pub fn decimal_len(n: u64) -> (r: usize)
    ensures
        r == decimal(n as nat).len(),
    decreases n,
{
    proof {
        reveal_with_fuel(pow10, 21);
        lemma_decimal_len_bound(n as nat, 20);
    }
    if n < 10 {
        1
    } else {
        let k = decimal_len(n / 10);
        k + 1
    }
}

/// Appends the digits of `n`, with leading zeros up to `width` digits.
pub fn push_padded(out: &mut Vec<u8>, n: u64, width: usize)
    requires
        width <= 20,
    ensures
        final(out)@ == old(out)@ + padded(n as nat, width as nat),
{
    let len = decimal_len(n);
    let ghost start = out@;
    if len < width {
        let mut i: usize = len;
        while i < width
            invariant
                len <= i <= width,
                out@ == start + Seq::new((i - len) as nat, |j: int| 48u8),
            decreases width - i,
        {
            out.push(48);
            i = i + 1;
            assert(out@ =~= start + Seq::new((i - len) as nat, |j: int| 48u8));
        }
    }
    push_decimal(out, n);
    assert(final(out)@ =~= start + padded(n as nat, width as nat));
}

/// The position of the last `b` in `s`.
pub fn last_index(s: &[u8], b: u8) -> (r: Option<usize>)
    ensures
        match r {
            Some(k) => k == last_index_of(s@, b) && k < s@.len(),
            None => last_index_of(s@, b) == -1,
        },
{
    let mut i: usize = s.len();
    assert(s@.subrange(0, i as int) =~= s@);
    while i > 0
        invariant
            i <= s@.len(),
            last_index_of(s@, b) == last_index_of(s@.subrange(0, i as int), b),
        decreases i,
    {
        let ghost pre = s@.subrange(0, i as int);
        assert(pre.drop_last() =~= s@.subrange(0, i - 1));
        if s[i - 1] == b {
            return Some(i - 1);
        }
        i = i - 1;
    }
    assert(s@.subrange(0, 0) =~= Seq::<u8>::empty());
    None
}

/// Where the file name of `p` starts, and where its extension's dot stands.
fn name_parts(p: &[u8]) -> (r: (usize, Option<usize>))
    ensures
        r.0 <= p@.len(),
        file_name(p@) == p@.subrange(r.0 as int, p@.len() as int),
        match r.1 {
            Some(k) => r.0 < k < p@.len() && extension(p@) == Some(
                p@.subrange(k + 1, p@.len() as int),
            ) && file_stem(p@) == p@.subrange(r.0 as int, k as int),
            None => extension(p@) is None && file_stem(p@) == file_name(p@),
        },
{
    let len = p.len();
    let start: usize = match last_index(p, SLASH) {
        Some(k) => k + 1,
        None => 0,
    };
    let ghost n = p@.subrange(start as int, p@.len() as int);
    let name = p.split_at(start).1;
    assert(name@ =~= n);
    let dot = last_index(name, DOT);
    let dot_dot = name.len() == 2 && name[0] == DOT && name[1] == DOT;
    assert(dot_dot == is_dot_dot(n)) by {
        if is_dot_dot(n) {
            assert(n[0] == DOT && n[1] == DOT);
        }
        if dot_dot {
            assert(n =~= seq![DOT, DOT]);
        }
    };
    match dot {
        Some(k) => if k == 0 || dot_dot {
            (start, None)
        } else {
            assert(n.subrange(k + 1, n.len() as int) =~= p@.subrange(
                start + k + 1,
                p@.len() as int,
            ));
            assert(n.subrange(0, k as int) =~= p@.subrange(start as int, start + k));
            (start, Some(start + k))
        },
        None => (start, None),
    }
}

/// The extension of `p`, if it has one.
pub fn extension_of(p: &[u8]) -> (r: Option<Vec<u8>>)
    ensures
        match r {
            Some(e) => extension(p@) == Some(e@),
            None => extension(p@) is None,
        },
{
    let len = p.len();
    let (_, dot) = name_parts(p);
    match dot {
        Some(k) => {
            let mut e: Vec<u8> = Vec::new();
            append_bytes(&mut e, p.split_at(k + 1).1);
            Some(e)
        },
        None => None,
    }
}

/// `s` with its ASCII letters made lower case.
pub fn lowercase(s: &[u8]) -> (r: Vec<u8>)
    ensures
        r@ == lowered(s@),
{
    let mut r: Vec<u8> = Vec::new();
    let mut i: usize = 0;
    while i < s.len()
        invariant
            i <= s@.len(),
            r@ == lowered(s@.subrange(0, i as int)),
        decreases s.len() - i,
    {
        let c = s[i];
        let l: u8 = if 65 <= c && c <= 90 { c + 32 } else { c };
        r.push(l);
        i = i + 1;
        assert(r@ =~= lowered(s@.subrange(0, i as int)));
    }
    assert(s@.subrange(0, i as int) =~= s@);
    r
}

pub fn equals_word(s: &[u8], w: &[u8]) -> (r: bool)
    ensures
        r == (s@ == w@),
{
    if s.len() != w.len() {
        return false;
    }
    let mut i: usize = 0;
    while i < s.len()
        invariant
            i <= s@.len(),
            s@.len() == w@.len(),
            s@.subrange(0, i as int) == w@.subrange(0, i as int),
        decreases s.len() - i,
    {
        if s[i] != w[i] {
            assert(s@[i as int] != w@[i as int]);
            return false;
        }
        i = i + 1;
        assert(s@.subrange(0, i as int) =~= w@.subrange(0, i as int));
    }
    assert(s@ =~= s@.subrange(0, i as int));
    assert(w@ =~= w@.subrange(0, i as int));
    true
}

fn is_word3(s: &[u8], a: u8, b: u8, c: u8) -> (r: bool)
    ensures
        r == (s@ == seq![a, b, c]),
{
    let r = s.len() == 3 && s[0] == a && s[1] == b && s[2] == c;
    if r {
        assert(s@ =~= seq![a, b, c]);
    }
    proof {
        if s@ == seq![a, b, c] {
            assert(s@[0] == a && s@[1] == b && s@[2] == c);
        }
    }
    r
}

fn is_word4(s: &[u8], a: u8, b: u8, c: u8, d: u8) -> (r: bool)
    ensures
        r == (s@ == seq![a, b, c, d]),
{
    let r = s.len() == 4 && s[0] == a && s[1] == b && s[2] == c && s[3] == d;
    if r {
        assert(s@ =~= seq![a, b, c, d]);
    }
    proof {
        if s@ == seq![a, b, c, d] {
            assert(s@[0] == a && s@[1] == b && s@[2] == c && s@[3] == d);
        }
    }
    r
}

/// Whether `e` is, ignoring case, one of bmp, gif, jpg, jpeg, png, tif, tiff
/// and wmp.
pub fn is_photo_ext(e: &[u8]) -> (r: bool)
    ensures
        r == is_photo_extension(e@),
{
    let l = lowercase(e);
    let w = l.as_slice();
    is_word3(w, 98, 109, 112) || is_word3(w, 103, 105, 102) || is_word3(w, 106, 112, 103)
        || is_word4(w, 106, 112, 101, 103) || is_word3(w, 112, 110, 103) || is_word3(
        w,
        116,
        105,
        102,
    ) || is_word4(w, 116, 105, 102, 102) || is_word3(w, 119, 109, 112)
}

/// Determines if a file is a photo by inspecting its extension.
pub fn is_photo_file(path: &[u8]) -> (r: bool)
    ensures
        r == is_photo_path(path@),
{
    match extension_of(path) {
        Some(e) => is_photo_ext(e.as_slice()),
        None => false,
    }
}

/// Whether the file stem of `path` holds a `!`.
pub fn is_excluded_file(path: &[u8]) -> (r: bool)
    ensures
        r == is_excluded_path(path@),
{
    let (start, dot) = name_parts(path);
    let end: usize = match dot {
        Some(k) => k,
        None => path.len(),
    };
    let ghost stem = path@.subrange(start as int, end as int);
    assert(file_stem(path@) == stem);
    let mut i: usize = start;
    while i < end
        invariant
            start <= i <= end <= path@.len(),
            stem == path@.subrange(start as int, end as int),
            file_stem(path@) == stem,
            forall|j: int| 0 <= j < i - start ==> stem[j] != BANG,
        decreases end - i,
    {
        if path[i] == BANG {
            assert(stem[i - start] == path@[i as int]);
            assert(stem[i - start] == BANG);
            return true;
        }
        i = i + 1;
    }
    assert(!stem.contains(BANG));
    false
}

/// Appends `part` to the path `out`, with one separator between them.
pub fn push_join(out: &mut Vec<u8>, part: &[u8])
    ensures
        final(out)@ == join(old(out)@, part@),
{
    let n = out.len();
    if n == 0 || out[n - 1] != SLASH {
        out.push(SLASH);
    }
    append_bytes(out, part);
}

fn push_year(out: &mut Vec<u8>, y: i32)
    ensures
        final(out)@ == old(out)@ + year_text(y as int),
{
    let ghost start = out@;
    if 0 <= y && y <= 9999 {
        push_padded(out, y as u64, 4);
    } else if y < 0 {
        out.push(45);
        push_padded(out, (-(y as i64)) as u64, 4);
    } else {
        out.push(43);
        push_padded(out, y as u64, 4);
    }
    assert(final(out)@ =~= start + year_text(y as int));
}

fn push_field(out: &mut Vec<u8>, sep: u8, n: u64, width: usize)
    requires
        width <= 20,
    ensures
        final(out)@ == old(out)@ + field_text(sep, n as nat, width as nat),
{
    let ghost start = out@;
    out.push(sep);
    push_padded(out, n, width);
    assert(final(out)@ =~= start + field_text(sep, n as nat, width as nat));
}

fn push_timestamp(out: &mut Vec<u8>, d: &PhotoDateTime)
    ensures
        final(out)@ == old(out)@ + timestamp_text(*d),
{
    let ghost start = out@;
    push_year(out, d.year);
    push_field(out, 45, d.month as u64, 2);
    push_field(out, 45, d.day as u64, 2);
    push_field(out, 32, d.hour as u64, 2);
    push_field(out, 45, d.minute as u64, 2);
    push_field(out, 45, d.second as u64, 2);
    push_field(out, 45, d.nanosecond as u64, 9);
    assert(final(out)@ =~= start + timestamp_text(*d));
}

fn month_folder_of(root: &[u8], d: &PhotoDateTime) -> (r: Vec<u8>)
    ensures
        r@ == month_folder(root@, *d),
{
    let mut r: Vec<u8> = Vec::new();
    append_bytes(&mut r, root);
    assert(r@ =~= root@);
    let mut year: Vec<u8> = Vec::new();
    push_year(&mut year, d.year);
    assert(year@ =~= year_text(d.year as int));
    push_join(&mut r, year.as_slice());
    let mut month: Vec<u8> = Vec::new();
    push_padded(&mut month, d.month as u64, 2);
    assert(month@ =~= padded(d.month as nat, 2));
    push_join(&mut r, month.as_slice());
    r
}

/// The organized destination of the photo at `file_path` taken at `date_time`:
/// `<organized_dir>/<YYYY>/<MM>/<YYYY-MM-DD HH-MM-SS-fffffffff>[ <NNN>].<ext>`,
/// where `NNN` is `conflict` and is left out when it is zero.
pub fn get_organized_photo_path(
    file_path: &[u8],
    date_time: &PhotoDateTime,
    conflict: u32,
    organized_dir: &[u8],
) -> (r: Vec<u8>)
    requires
        extension(file_path@) is Some,
    ensures
        r@ == organized_path(
            organized_dir@,
            *date_time,
            conflict as nat,
            extension(file_path@).unwrap(),
        ),
{
    let ext = match extension_of(file_path) {
        Some(e) => e,
        None => Vec::new(),
    };
    let mut name: Vec<u8> = Vec::new();
    push_timestamp(&mut name, date_time);
    if conflict > 0 {
        name.push(32);
        push_padded(&mut name, conflict as u64, 3);
    }
    name.push(DOT);
    let lower = lowercase(ext.as_slice());
    append_bytes(&mut name, lower.as_slice());
    assert(name@ =~= organized_name(*date_time, conflict as nat, ext@));
    let mut r = month_folder_of(organized_dir, date_time);
    push_join(&mut r, name.as_slice());
    r
}

/// The duplicate destination of the photo at `file_path` taken at `date_time`
/// whose contents hash to `hash`:
/// `<duplicates_dir>/<YYYY>/<MM>/<hash>[.<NNN>].<ext>`, where `NNN` is
/// `conflict` and is left out when it is zero.
pub fn get_duplicate_photo_path(
    file_path: &[u8],
    date_time: &PhotoDateTime,
    hash: &[u8],
    conflict: u32,
    duplicates_dir: &[u8],
) -> (r: Vec<u8>)
    requires
        extension(file_path@) is Some,
    ensures
        r@ == duplicate_path(
            duplicates_dir@,
            *date_time,
            hash@,
            conflict as nat,
            extension(file_path@).unwrap(),
        ),
{
    let ext = match extension_of(file_path) {
        Some(e) => e,
        None => Vec::new(),
    };
    let mut name: Vec<u8> = Vec::new();
    append_bytes(&mut name, hash);
    if conflict > 0 {
        name.push(DOT);
        push_padded(&mut name, conflict as u64, 3);
    }
    name.push(DOT);
    let lower = lowercase(ext.as_slice());
    append_bytes(&mut name, lower.as_slice());
    assert(name@ =~= duplicate_name(hash@, conflict as nat, ext@));
    let mut r = month_folder_of(duplicates_dir, date_time);
    push_join(&mut r, name.as_slice());
    r
}

/// A copy of `b`.
pub fn to_owned_bytes(b: &[u8]) -> (r: Vec<u8>)
    ensures
        r@ == b@,
{
    let mut r: Vec<u8> = Vec::new();
    append_bytes(&mut r, b);
    assert(r@ =~= b@);
    r
}

/// What follows `base` in `p`, when `base` is a leading run of whole
/// components of `p`.
pub open spec fn strip_base(p: Seq<u8>, base: Seq<u8>) -> Option<Seq<u8>> {
    if p == base {
        Some(Seq::empty())
    } else if base.len() > 0 && base.len() < p.len() && p.subrange(0, base.len() as int) == base {
        if p[base.len() as int] == SLASH {
            Some(p.subrange(base.len() as int + 1, p.len() as int))
        } else if base.last() == SLASH {
            Some(p.subrange(base.len() as int, p.len() as int))
        } else {
            None
        }
    } else {
        None
    }
}

/// `p`, a path under `canonical_base`, rewritten under `lay_base`; any other
/// path is kept as it is.
pub open spec fn relayed(p: Seq<u8>, canonical_base: Seq<u8>, lay_base: Seq<u8>) -> Seq<u8> {
    match strip_base(p, canonical_base) {
        Some(rest) => if rest.len() == 0 {
            lay_base
        } else {
            join(lay_base, rest)
        },
        None => p,
    }
}

fn starts_with(p: &[u8], base: &[u8]) -> (r: bool)
    requires
        base@.len() <= p@.len(),
    ensures
        r == (p@.subrange(0, base@.len() as int) == base@),
{
    let mut i: usize = 0;
    while i < base.len()
        invariant
            i <= base@.len() <= p@.len(),
            p@.subrange(0, i as int) == base@.subrange(0, i as int),
        decreases base.len() - i,
    {
        if p[i] != base[i] {
            assert(p@.subrange(0, base@.len() as int)[i as int] != base@[i as int]);
            return false;
        }
        i = i + 1;
        assert(p@.subrange(0, i as int) =~= base@.subrange(0, i as int));
    }
    assert(base@.subrange(0, i as int) =~= base@);
    true
}

/// The reverse of canonicalization: `canonical_path` with `lay_base` in place
/// of `canonical_base`.
pub fn decry_path(canonical_path: &[u8], canonical_base: &[u8], lay_base: &[u8]) -> (r: Vec<u8>)
    ensures
        r@ == relayed(canonical_path@, canonical_base@, lay_base@),
{
    let p = canonical_path;
    let b = canonical_base;
    let n = b.len();
    let rest_start: usize;
    if p.len() == n && starts_with(p, b) {
        assert(p@ =~= p@.subrange(0, n as int));
        return to_owned_bytes(lay_base);
    } else if n > 0 && n < p.len() && starts_with(p, b) {
        if p[n] == SLASH {
            rest_start = n + 1;
        } else if b[n - 1] == SLASH {
            rest_start = n;
        } else {
            return to_owned_bytes(p);
        }
    } else {
        proof {
            if p@ == b@ {
                assert(p@.subrange(0, n as int) =~= p@);
            }
        }
        return to_owned_bytes(p);
    }
    let rest = p.split_at(rest_start).1;
    assert(p@ != b@);
    let mut r = to_owned_bytes(lay_base);
    if rest.len() > 0 {
        push_join(&mut r, rest);
    }
    r
}

pub proof fn lemma_last_index_of_append(a: Seq<u8>, b: Seq<u8>, x: u8)
    ensures
        last_index_of(a + b, x) == if last_index_of(b, x) >= 0 {
            a.len() + last_index_of(b, x)
        } else {
            last_index_of(a, x)
        },
        -1 <= last_index_of(b, x) < b.len(),
    decreases b.len(),
{
    if b.len() == 0 {
        assert(a + b =~= a);
    } else {
        assert((a + b).drop_last() =~= a + b.drop_last());
        lemma_last_index_of_append(a, b.drop_last(), x);
    }
}

pub proof fn lemma_last_index_of_absent(s: Seq<u8>, x: u8)
    requires
        !s.contains(x),
    ensures
        last_index_of(s, x) == -1,
    decreases s.len(),
{
    if s.len() > 0 {
        assert(s.last() == s[s.len() - 1]);
        assert(!s.drop_last().contains(x)) by {
            if s.drop_last().contains(x) {
                let i = choose|i: int| 0 <= i < s.drop_last().len() && s.drop_last()[i] == x;
                assert(s[i] == x);
            }
        };
        lemma_last_index_of_absent(s.drop_last(), x);
    }
}

/// Every byte of `s` is a decimal digit.
pub open spec fn digits_only(s: Seq<u8>) -> bool {
    forall|i: int| 0 <= i < s.len() ==> 48 <= #[trigger] s[i] <= 57
}

pub proof fn lemma_decimal_digits(n: nat)
    ensures
        digits_only(decimal(n)),
        decimal(n).len() >= 1,
        decimal_value(decimal(n)) == n,
    decreases n,
{
    let d = decimal(n);
    if n >= 10 {
        lemma_decimal_digits(n / 10);
        assert(d.drop_last() =~= decimal(n / 10));
        assert(d.last() == (48 + n % 10) as u8);
        assert(d.last() - 48 == n % 10);
        assert(decimal_value(d) == decimal_value(d.drop_last()) * 10 + (d.last() - 48));
        assert((n / 10) * 10 + n % 10 == n);
    } else {
        assert(d.drop_last() =~= Seq::<u8>::empty());
        assert(decimal_value(Seq::<u8>::empty()) == 0);
        assert(d.last() - 48 == n);
        assert(decimal_value(d) == decimal_value(d.drop_last()) * 10 + (d.last() - 48));
    }
}

proof fn lemma_zeros_value(k: nat, s: Seq<u8>)
    ensures
        decimal_value(Seq::new(k, |i: int| 48u8) + s) == decimal_value(s),
    decreases s.len() + k,
{
    let z = Seq::new(k, |i: int| 48u8);
    if s.len() > 0 {
        assert((z + s).drop_last() =~= z + s.drop_last());
        lemma_zeros_value(k, s.drop_last());
    } else if k > 0 {
        assert(z + s =~= z);
        let z1 = Seq::new((k - 1) as nat, |i: int| 48u8);
        assert(z.drop_last() =~= z1 + Seq::<u8>::empty());
        lemma_zeros_value((k - 1) as nat, Seq::<u8>::empty());
    } else {
        assert(z + s =~= s);
    }
}

pub proof fn lemma_padded_digits(n: nat, width: nat)
    ensures
        digits_only(padded(n, width)),
        padded(n, width).len() >= 1,
        decimal_value(padded(n, width)) == n,
{
    lemma_decimal_digits(n);
    let d = decimal(n);
    if d.len() < width {
        let z = Seq::new((width - d.len()) as nat, |i: int| 48u8);
        lemma_zeros_value((width - d.len()) as nat, d);
        assert(digits_only(z + d)) by {
            assert forall|i: int| 0 <= i < (z + d).len() implies 48 <= #[trigger] (z + d)[i]
                <= 57 by {
                if i >= z.len() {
                    assert((z + d)[i] == d[i - z.len()]);
                }
            }
        };
    }
}

/// The bytes a timestamp text is made of: digits, `-`, `+` and space.
pub open spec fn stamp_byte(b: u8) -> bool {
    (48 <= b <= 57) || b == 45 || b == 43 || b == 32
}

pub open spec fn stamp_bytes_only(s: Seq<u8>) -> bool {
    forall|i: int| 0 <= i < s.len() ==> stamp_byte(#[trigger] s[i])
}

proof fn lemma_stamp_concat(a: Seq<u8>, b: Seq<u8>)
    requires
        stamp_bytes_only(a),
        stamp_bytes_only(b),
    ensures
        stamp_bytes_only(a + b),
{
    assert forall|i: int| 0 <= i < (a + b).len() implies stamp_byte(#[trigger] (a + b)[i]) by {
        if i < a.len() {
            assert((a + b)[i] == a[i]);
        } else {
            assert((a + b)[i] == b[i - a.len()]);
        }
    }
}

proof fn lemma_padded_stamp(n: nat, width: nat)
    ensures
        stamp_bytes_only(padded(n, width)),
{
    lemma_padded_digits(n, width);
}

proof fn lemma_field_stamp(sep: u8, n: nat, width: nat)
    requires
        stamp_byte(sep),
    ensures
        stamp_bytes_only(field_text(sep, n, width)),
{
    lemma_padded_stamp(n, width);
    assert(stamp_bytes_only(seq![sep]));
    lemma_stamp_concat(seq![sep], padded(n, width));
}

pub proof fn lemma_timestamp_stamp(d: PhotoDateTime)
    ensures
        stamp_bytes_only(timestamp_text(d)),
        timestamp_text(d).len() >= 1,
{
    let y = d.year as int;
    lemma_padded_digits(if y < 0 { (-y) as nat } else { y as nat }, 4);
    assert(stamp_bytes_only(year_text(y))) by {
        lemma_padded_stamp(if y < 0 { (-y) as nat } else { y as nat }, 4);
        if !(0 <= y <= 9999) {
            if y < 0 {
                assert(stamp_bytes_only(seq![45u8]));
                lemma_stamp_concat(seq![45u8], padded((-y) as nat, 4));
            } else {
                assert(stamp_bytes_only(seq![43u8]));
                lemma_stamp_concat(seq![43u8], padded(y as nat, 4));
            }
        }
    };
    lemma_field_stamp(45, d.month as nat, 2);
    lemma_field_stamp(45, d.day as nat, 2);
    lemma_field_stamp(32, d.hour as nat, 2);
    lemma_field_stamp(45, d.minute as nat, 2);
    lemma_field_stamp(45, d.second as nat, 2);
    lemma_field_stamp(45, d.nanosecond as nat, 9);
    let a1 = year_text(y) + field_text(45, d.month as nat, 2);
    lemma_stamp_concat(year_text(y), field_text(45, d.month as nat, 2));
    let a2 = a1 + field_text(45, d.day as nat, 2);
    lemma_stamp_concat(a1, field_text(45, d.day as nat, 2));
    let a3 = a2 + field_text(32, d.hour as nat, 2);
    lemma_stamp_concat(a2, field_text(32, d.hour as nat, 2));
    let a4 = a3 + field_text(45, d.minute as nat, 2);
    lemma_stamp_concat(a3, field_text(45, d.minute as nat, 2));
    let a5 = a4 + field_text(45, d.second as nat, 2);
    lemma_stamp_concat(a4, field_text(45, d.second as nat, 2));
    lemma_stamp_concat(a5, field_text(45, d.nanosecond as nat, 9));
}

proof fn lemma_stamp_lacks(s: Seq<u8>, x: u8)
    requires
        stamp_bytes_only(s),
        !stamp_byte(x),
    ensures
        !s.contains(x),
{
    if s.contains(x) {
        let i = choose|i: int| 0 <= i < s.len() && s[i] == x;
        assert(stamp_byte(s[i]));
    }
}

pub proof fn lemma_lowered_keeps(s: Seq<u8>, x: u8)
    requires
        !s.contains(x),
        !(65 <= x <= 90),
        !(97 <= x <= 122),
    ensures
        !lowered(s).contains(x),
{
    if lowered(s).contains(x) {
        let i = choose|i: int| 0 <= i < lowered(s).len() && lowered(s)[i] == x;
        assert(lowered(s)[i] == lower_byte(s[i]));
        assert(s[i] == x);
    }
}

pub proof fn lemma_lowered_idempotent(s: Seq<u8>)
    ensures
        lowered(lowered(s)) == lowered(s),
{
    assert(lowered(lowered(s)) =~= lowered(s));
}

/// The file name of `join(base, part)` is `part`, when `part` holds no separator.
pub proof fn lemma_file_name_join(base: Seq<u8>, part: Seq<u8>)
    requires
        !part.contains(SLASH),
    ensures
        file_name(join(base, part)) == part,
{
    lemma_last_index_of_absent(part, SLASH);
    if base.len() > 0 && base.last() == SLASH {
        lemma_last_index_of_append(base, part, SLASH);
        assert(last_index_of(base, SLASH) == base.len() - 1);
        assert(join(base, part).subrange(base.len() as int, join(base, part).len() as int) =~= part);
    } else {
        let b = base.push(SLASH);
        lemma_last_index_of_append(b, part, SLASH);
        assert(last_index_of(b, SLASH) == base.len()) by {
            assert(b.last() == SLASH);
        };
        assert(join(base, part).subrange(b.len() as int, join(base, part).len() as int) =~= part);
    }
}

/// An extension as `extension` yields it: no separator and no dot in it.
pub open spec fn is_plain_extension(ext: Seq<u8>) -> bool {
    !ext.contains(SLASH) && !ext.contains(DOT)
}

/// A file name `stem.ext` with a stem free of separators: its extension is
/// `ext` and its stem is `stem`.
proof fn lemma_name_extension(base: Seq<u8>, stem: Seq<u8>, ext: Seq<u8>)
    requires
        stem.len() >= 1,
        stem[0] != DOT,
        !stem.contains(SLASH),
        is_plain_extension(ext),
    ensures
        extension(join(base, stem + seq![DOT] + ext)) == Some(ext),
        file_name(join(base, stem + seq![DOT] + ext)) == stem + seq![DOT] + ext,
{
    let n = stem + seq![DOT] + ext;
    assert(!n.contains(SLASH)) by {
        if n.contains(SLASH) {
            let i = choose|i: int| 0 <= i < n.len() && n[i] == SLASH;
            if i < stem.len() {
                assert(stem[i] == SLASH);
            } else if i > stem.len() {
                assert(ext[i - stem.len() - 1] == SLASH);
            }
        }
    };
    lemma_file_name_join(base, n);
    lemma_last_index_of_absent(ext, DOT);
    lemma_last_index_of_append(stem + seq![DOT], ext, DOT);
    lemma_last_index_of_append(stem, seq![DOT], DOT);
    assert(last_index_of(seq![DOT], DOT) == 0) by {
        assert(seq![DOT].last() == DOT);
    };
    assert(last_index_of(n, DOT) == stem.len());
    assert(!is_dot_dot(n)) by {
        if is_dot_dot(n) {
            assert(n.len() == 2);
            assert(ext.len() == 0 && stem.len() == 1);
            assert(n[0] == stem[0]);
        }
    };
    assert(n.subrange(stem.len() as int + 1, n.len() as int) =~= ext);
}

/// Recomputing the organized destination of a photo that already sits at its
/// organized destination gives back the same path: the engine finds it in
/// place and leaves it there.
pub proof fn organized_path_is_fixed_point(
    root: Seq<u8>,
    d: PhotoDateTime,
    conflict: nat,
    ext: Seq<u8>,
)
    requires
        is_plain_extension(ext),
    ensures
        extension(organized_path(root, d, conflict, ext)) == Some(lowered(ext)),
        organized_path(
            root,
            d,
            conflict,
            extension(organized_path(root, d, conflict, ext)).unwrap(),
        ) == organized_path(root, d, conflict, ext),
{
    let t = timestamp_text(d);
    let suffix = if conflict > 0 {
        seq![32u8] + padded(conflict, 3)
    } else {
        Seq::empty()
    };
    lemma_timestamp_stamp(d);
    lemma_padded_stamp(conflict, 3);
    if conflict > 0 {
        assert(stamp_bytes_only(seq![32u8]));
        lemma_stamp_concat(seq![32u8], padded(conflict, 3));
    }
    lemma_stamp_concat(t, suffix);
    lemma_stamp_lacks(t + suffix, SLASH);
    lemma_lowered_keeps(ext, SLASH);
    lemma_lowered_keeps(ext, DOT);
    assert(stamp_byte((t + suffix)[0]));
    lemma_name_extension(month_folder(root, d), t + suffix, lowered(ext));
    assert(organized_name(d, conflict, ext) == (t + suffix) + seq![DOT] + lowered(ext));
    lemma_lowered_idempotent(ext);
}

proof fn lemma_suffixes_differ(
    t: Seq<u8>,
    sep: u8,
    c1: nat,
    c2: nat,
    tail: Seq<u8>,
)
    requires
        c1 != c2,
    ensures
        t + (if c1 > 0 {
            seq![sep] + padded(c1, 3)
        } else {
            Seq::empty()
        }) + tail != t + (if c2 > 0 {
            seq![sep] + padded(c2, 3)
        } else {
            Seq::empty()
        }) + tail,
{
    let s1 = if c1 > 0 {
        seq![sep] + padded(c1, 3)
    } else {
        Seq::empty()
    };
    let s2 = if c2 > 0 {
        seq![sep] + padded(c2, 3)
    } else {
        Seq::empty()
    };
    lemma_padded_digits(c1, 3);
    lemma_padded_digits(c2, 3);
    let n1 = t + s1 + tail;
    let n2 = t + s2 + tail;
    if n1 == n2 {
        assert(n1.len() == t.len() + s1.len() + tail.len());
        assert(n2.len() == t.len() + s2.len() + tail.len());
        assert(s1.len() == s2.len());
        assert(n1.subrange(t.len() as int, t.len() + s1.len() as int) =~= s1);
        assert(n2.subrange(t.len() as int, t.len() + s2.len() as int) =~= s2);
        if c1 > 0 && c2 > 0 {
            assert(s1.drop_first() =~= padded(c1, 3));
            assert(s2.drop_first() =~= padded(c2, 3));
        }
    }
}

/// Distinct conflict numbers give distinct organized destinations: after a
/// collision the engine always looks at a slot it has not tried.
pub proof fn organized_paths_differ_by_conflict(
    root: Seq<u8>,
    d: PhotoDateTime,
    c1: nat,
    c2: nat,
    ext: Seq<u8>,
)
    requires
        c1 != c2,
        is_plain_extension(ext),
    ensures
        organized_path(root, d, c1, ext) != organized_path(root, d, c2, ext),
{
    let t = timestamp_text(d);
    let tail = seq![DOT] + lowered(ext);
    lemma_suffixes_differ(t, 32, c1, c2, tail);
    organized_path_is_fixed_point(root, d, c1, ext);
    organized_path_is_fixed_point(root, d, c2, ext);
    lemma_timestamp_stamp(d);
    lemma_stamp_lacks(t, SLASH);
    assert(organized_name(d, c1, ext) =~= t + (if c1 > 0 {
        seq![32u8] + padded(c1, 3)
    } else {
        Seq::empty()
    }) + tail);
    assert(organized_name(d, c2, ext) =~= t + (if c2 > 0 {
        seq![32u8] + padded(c2, 3)
    } else {
        Seq::empty()
    }) + tail);
    no_slash_in_name(d, c1, ext);
    no_slash_in_name(d, c2, ext);
    lemma_file_name_join(month_folder(root, d), organized_name(d, c1, ext));
    lemma_file_name_join(month_folder(root, d), organized_name(d, c2, ext));
}

proof fn no_slash_in_name(d: PhotoDateTime, c: nat, ext: Seq<u8>)
    requires
        is_plain_extension(ext),
    ensures
        !organized_name(d, c, ext).contains(SLASH),
{
    let t = timestamp_text(d);
    let suffix = if c > 0 {
        seq![32u8] + padded(c, 3)
    } else {
        Seq::empty()
    };
    lemma_timestamp_stamp(d);
    lemma_padded_stamp(c, 3);
    if c > 0 {
        assert(stamp_bytes_only(seq![32u8]));
        lemma_stamp_concat(seq![32u8], padded(c, 3));
    }
    lemma_stamp_concat(t, suffix);
    lemma_lowered_keeps(ext, SLASH);
    let n = organized_name(d, c, ext);
    assert(n =~= (t + suffix) + seq![DOT] + lowered(ext));
    if n.contains(SLASH) {
        let i = choose|i: int| 0 <= i < n.len() && n[i] == SLASH;
        if i < (t + suffix).len() {
            assert(stamp_byte((t + suffix)[i]));
        } else if i > (t + suffix).len() {
            assert(lowered(ext)[i - (t + suffix).len() - 1] == SLASH);
        }
    }
}

/// Distinct conflict numbers give distinct duplicate destinations, for a hash
/// free of separators and dots.
pub proof fn duplicate_paths_differ_by_conflict(
    root: Seq<u8>,
    d: PhotoDateTime,
    hash: Seq<u8>,
    c1: nat,
    c2: nat,
    ext: Seq<u8>,
)
    requires
        c1 != c2,
        is_plain_extension(ext),
        is_plain_extension(hash),
        hash.len() >= 1,
    ensures
        duplicate_path(root, d, hash, c1, ext) != duplicate_path(root, d, hash, c2, ext),
        file_name(duplicate_path(root, d, hash, c1, ext)).subrange(0, hash.len() as int) == hash,
{
    let tail = seq![DOT] + lowered(ext);
    lemma_suffixes_differ(hash, DOT, c1, c2, tail);
    lemma_lowered_keeps(ext, SLASH);
    let folder = month_folder(root, d);
    assert forall|c: nat| !(#[trigger] duplicate_name(hash, c, ext)).contains(SLASH) by {
        let suffix = if c > 0 {
            seq![DOT] + padded(c, 3)
        } else {
            Seq::empty()
        };
        lemma_padded_digits(c, 3);
        let n = duplicate_name(hash, c, ext);
        assert(n =~= hash + suffix + tail);
        if n.contains(SLASH) {
            let i = choose|i: int| 0 <= i < n.len() && n[i] == SLASH;
            if i < hash.len() {
                assert(hash[i] == SLASH);
            } else if i < hash.len() + suffix.len() {
                assert(suffix[i - hash.len()] == SLASH);
                if c > 0 && i > hash.len() {
                    assert(padded(c, 3)[i - hash.len() - 1] == SLASH);
                }
            } else if i > hash.len() + suffix.len() {
                assert(lowered(ext)[i - hash.len() - suffix.len() - 1] == SLASH);
            }
        }
    }
    lemma_file_name_join(folder, duplicate_name(hash, c1, ext));
    lemma_file_name_join(folder, duplicate_name(hash, c2, ext));
    assert(duplicate_name(hash, c1, ext) =~= hash + (if c1 > 0 {
        seq![DOT] + padded(c1, 3)
    } else {
        Seq::empty()
    }) + tail);
    assert(duplicate_name(hash, c2, ext) =~= hash + (if c2 > 0 {
        seq![DOT] + padded(c2, 3)
    } else {
        Seq::empty()
    }) + tail);
    assert(duplicate_name(hash, c1, ext).subrange(0, hash.len() as int) =~= hash);
}

} // verus!
