//! The calls into outside crates: the user's home directory (`dirs`), the
//! terminal size (`term_size`), device numbers and file-type bits
//! (`libc`), and dates and times (`chrono`).

use vstd::prelude::*;

verus! {

/// `libc::S_IFMT` on Linux: the mask of the file-type bits of a mode.
#[verifier::external_body]
pub(crate) fn file_type_mask() -> (r: u32)
    ensures
        r == 0o170000,
{
    libc::S_IFMT
}

/// `libc::S_IFDIR` on Linux: the file-type bits of a directory.
#[verifier::external_body]
pub(crate) fn directory_bits() -> (r: u32)
    ensures
        r == 0o040000,
{
    libc::S_IFDIR
}

/// `libc::S_IFCHR` on Linux: the file-type bits of a character device.
#[verifier::external_body]
pub(crate) fn character_device_bits() -> (r: u32)
    ensures
        r == 0o020000,
{
    libc::S_IFCHR
}

/// `libc::S_IFBLK` on Linux: the file-type bits of a block device.
#[verifier::external_body]
pub(crate) fn block_device_bits() -> (r: u32)
    ensures
        r == 0o060000,
{
    libc::S_IFBLK
}

/// `libc::S_IFLNK` on Linux: the file-type bits of a symbolic link.
#[verifier::external_body]
pub(crate) fn symlink_bits() -> (r: u32)
    ensures
        r == 0o120000,
{
    libc::S_IFLNK
}

/// `libc::S_IFIFO` on Linux: the file-type bits of a named pipe.
#[verifier::external_body]
pub(crate) fn fifo_bits() -> (r: u32)
    ensures
        r == 0o010000,
{
    libc::S_IFIFO
}

/// `libc::S_IFSOCK` on Linux: the file-type bits of a socket.
#[verifier::external_body]
pub(crate) fn socket_bits() -> (r: u32)
    ensures
        r == 0o140000,
{
    libc::S_IFSOCK
}

/// `libc::S_IFREG` on Linux: the file-type bits of a regular file.
#[verifier::external_body]
pub(crate) fn regular_file_bits() -> (r: u32)
    ensures
        r == 0o100000,
{
    libc::S_IFREG
}

/// `libc::minor` on Linux: the minor number of a device ID (see
/// [`minor_of`]).
#[verifier::external_body]
pub(crate) fn device_minor(dev: u64) -> (r: u32)
    ensures
        r == minor_of(dev),
{
    libc::minor(dev)
}

/// The major number of a Linux device ID: bits 8 to 19 and 44 to 63.
pub open spec fn major_of(dev: u64) -> u32 {
    (((dev & 0x00000000000fff00u64) >> 8u64) | ((dev & 0xfffff00000000000u64) >> 32u64)) as u32
}

/// The minor number of a Linux device ID: bits 0 to 7 and 20 to 43.
pub open spec fn minor_of(dev: u64) -> u32 {
    (((dev & 0x00000000000000ffu64) >> 0u64) | ((dev & 0x00000ffffff00000u64) >> 12u64)) as u32
}

/// `libc::major` on Linux: the major number of a device ID (see
/// [`major_of`]).
#[verifier::external_body]
pub(crate) fn device_major(dev: u64) -> (r: u32)
    ensures
        r == major_of(dev),
{
    libc::major(dev)
}

/// `dirs::home_dir`: the user's home directory, if one is known, as text
/// (a path that is not UTF-8 is converted lossily). It depends on the
/// environment, so nothing is stated of it.
#[verifier::external_body]
pub(crate) fn home_directory() -> (r: Option<String>) {
    dirs::home_dir().map(|p| p.to_string_lossy().into_owned())
}

/// `term_size::dimensions`: the terminal's width and height in characters,
/// when standard output, input or error is a terminal. On Unix it gives
/// `None` when the terminal reports a zero width or height, and a value of
/// a 16-bit field otherwise.
#[verifier::external_body]
pub(crate) fn terminal_dimensions() -> (r: Option<(usize, usize)>)
    ensures
        r matches Some((w, h)) ==> 1 <= w <= 0xffff && 1 <= h <= 0xffff,
{
    term_size::dimensions()
}

/// Whether `(year, month, day)` is a day of the proleptic Gregorian
/// calendar.
pub open spec fn is_calendar_date(year: int, month: int, day: int) -> bool {
    let leap = (year % 4 == 0 && year % 100 != 0) || year % 400 == 0;
    let days = if month == 2 {
        if leap { 29int } else { 28int }
    } else if month == 4 || month == 6 || month == 9 || month == 11 {
        30int
    } else {
        31int
    };
    1 <= month <= 12 && 1 <= day <= days
}

/// Whether `t`, as (year, month, day, hour, minute, second), is a date and
/// time that `chrono` can hold: a calendar date with a year from -262143
/// to 262142, and a time of day.
pub open spec fn is_date_time(t: (i32, u32, u32, u32, u32, u32)) -> bool {
    &&& -262143 <= t.0 <= 262142
    &&& is_calendar_date(t.0 as int, t.1 as int, t.2 as int)
    &&& t.3 < 24
    &&& t.4 < 60
    &&& t.5 < 60
}

/// Whether `offset` is an offset from UTC, in seconds east, that `chrono`
/// can hold: less than a day either way.
pub open spec fn is_utc_offset(offset: i32) -> bool {
    -86400 < offset < 86400
}

/// Whether `secs` seconds after the Unix epoch falls within the years that
/// `chrono` holds: from the start of -262143-01-01 to the end of
/// 262142-12-31 (UTC).
pub open spec fn in_timestamp_range(secs: i64) -> bool {
    -8334601228800 <= secs <= 8210266876799
}

/// The UTC date and time that `chrono` gives for `secs` seconds and
/// `nanos` nanoseconds after the Unix epoch, if it holds them (see
/// [`utc_from_timestamp`]).
pub uninterp spec fn utc_of(secs: i64, nanos: u32) -> Option<(i32, u32, u32, u32, u32, u32)>;

/// `chrono::DateTime::from_timestamp`: the instant `secs` seconds and
/// `nanos` nanoseconds after the Unix epoch as a UTC date and time, by
/// year, month, day, hour, minute and second (of its `naive_utc`). `None`
/// on seconds outside chrono's years or an invalid nanosecond; a value is
/// always a date and time that chrono holds.
#[verifier::external_body]
pub(crate) fn utc_from_timestamp(secs: i64, nanos: u32) -> (r: Option<(i32, u32, u32, u32, u32, u32)>)
    ensures
        r == utc_of(secs, nanos),
        r matches Some(u) ==> is_date_time(u),
        in_timestamp_range(secs) && nanos < 1_000_000_000 ==> r.is_some(),
{
    match chrono::DateTime::from_timestamp(secs, nanos) {
        Some(d) => {
            let n = d.naive_utc();
            Some((
                chrono::Datelike::year(&n),
                chrono::Datelike::month(&n),
                chrono::Datelike::day(&n),
                chrono::Timelike::hour(&n),
                chrono::Timelike::minute(&n),
                chrono::Timelike::second(&n),
            ))
        },
        None => None,
    }
}

/// The year that `chrono` gives for the UTC date and time `utc` seen at
/// `offset` (see [`year_at_offset`]).
pub uninterp spec fn local_year_of(utc: (i32, u32, u32, u32, u32, u32), offset: i32) -> i32;

/// `chrono::Datelike::year` of `DateTime::<FixedOffset>` built by
/// `from_naive_utc_and_offset` from the UTC date and time `utc`
/// (`NaiveDate::from_ymd_opt`, `and_hms_opt`) and `FixedOffset::east_opt`
/// of `offset`: the year of the local date. `None` exactly where chrono
/// refuses the date, the time or the offset.
#[verifier::external_body]
pub(crate) fn year_at_offset(utc: (i32, u32, u32, u32, u32, u32), offset: i32) -> (r: Option<i32>)
    ensures
        r.is_some() <==> (is_date_time(utc) && is_utc_offset(offset)),
        r matches Some(y) ==> y == local_year_of(utc, offset),
{
    match chrono::NaiveDate::from_ymd_opt(utc.0, utc.1, utc.2) {
        Some(d) => match (d.and_hms_opt(utc.3, utc.4, utc.5), chrono::FixedOffset::east_opt(offset)) {
            (Some(n), Some(off)) => Some(chrono::Datelike::year(
                &chrono::DateTime::<chrono::FixedOffset>::from_naive_utc_and_offset(n, off),
            )),
            _ => None,
        },
        None => None,
    }
}

/// The text that `chrono` writes for the UTC date and time `utc` seen at
/// `offset`, after the `strftime`-like `pattern` (see
/// [`format_at_offset`]).
pub uninterp spec fn formatted_date_time(
    utc: (i32, u32, u32, u32, u32, u32),
    offset: i32,
    pattern: Seq<char>,
) -> Seq<char>;

/// `chrono::DateTime::format` on `DateTime::<FixedOffset>` built as in
/// [`year_at_offset`], written out by `to_string`: the local date and time
/// after `pattern`. `None` exactly where chrono refuses the date, the time
/// or the offset. Writing out panics on a pattern that chrono cannot read,
/// so only the two patterns of a long listing are admitted.
#[verifier::external_body]
pub(crate) fn format_at_offset(
    utc: (i32, u32, u32, u32, u32, u32),
    offset: i32,
    pattern: &str,
) -> (r: Option<String>)
    requires
        pattern@ == "%b %e %H:%M"@ || pattern@ == "%b %e  %Y"@,
    ensures
        r.is_some() <==> (is_date_time(utc) && is_utc_offset(offset)),
        r matches Some(s) ==> s@ == formatted_date_time(utc, offset, pattern@),
{
    match chrono::NaiveDate::from_ymd_opt(utc.0, utc.1, utc.2) {
        Some(d) => match (d.and_hms_opt(utc.3, utc.4, utc.5), chrono::FixedOffset::east_opt(offset)) {
            (Some(n), Some(off)) => Some(
                chrono::DateTime::<chrono::FixedOffset>::from_naive_utc_and_offset(n, off)
                    .format(pattern)
                    .to_string(),
            ),
            _ => None,
        },
        None => None,
    }
}

} // verus!
