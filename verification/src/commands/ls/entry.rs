//! The decisions `ls` makes for each path and each file: whether a path's
//! contents are listed, the lines for a path that is not, the owner and
//! group names, and the modification time.

use vstd::prelude::*;
use super::mode::{mode_suffix, mode_type_suffix, push_suffix, with_suffix, FileKind};
use crate::system::{
    format_at_offset, formatted_date_time, is_date_time, is_utc_offset,
    local_year_of, utc_from_timestamp, utc_of, year_at_offset,
};
use crate::text::{append_str, chars_of, decimal, decimal_chars, owned, string_of};

verus! {

/// Whether `ls` lists the contents of a path: in the long format, when it
/// is a directory (not a symbolic link to one); otherwise also when it is
/// a symbolic link that leads to a directory. `kind` is the path's own
/// kind, `target` the kind of what it leads to, if that could be read.
pub open spec fn lists_contents_of(long_format: bool, kind: FileKind, target: Option<FileKind>) -> bool {
    if long_format {
        kind == FileKind::Directory
    } else if kind == FileKind::Symlink {
        target == Some(FileKind::Directory)
    } else {
        kind == FileKind::Directory
    }
}

/// Whether `ls` lists the contents of a path (see [`lists_contents_of`]).
pub fn lists_contents(long_format: bool, kind: FileKind, target: Option<FileKind>) -> (r: bool)
    ensures
        r == lists_contents_of(long_format, kind, target),
{
    if long_format {
        kind == FileKind::Directory
    } else if kind == FileKind::Symlink {
        match target {
            Some(t) => t == FileKind::Directory,
            None => false,
        }
    } else {
        kind == FileKind::Directory
    }
}

/// The message for a path that does not exist.
pub open spec fn missing_path_text(path: Seq<char>) -> Seq<char> {
    "ls: cannot access '"@ + path + "': No such file or directory"@
}

/// The message for a path that does not exist (see [`missing_path_text`]).
pub fn missing_path_message(path: &str) -> (r: String)
    ensures
        r@ == missing_path_text(path@),
{
    let mut v: Vec<char> = Vec::new();
    append_str(&mut v, "ls: cannot access '");
    append_str(&mut v, path);
    append_str(&mut v, "': No such file or directory");
    string_of(&v)
}

/// The short-format line of a path that is not listed as a directory: the
/// path as given, with its `-F` suffix from its mode (if it could be read)
/// when `append_types`; not quoted.
pub open spec fn file_line_text(name: Seq<char>, append_types: bool, mode: Option<u32>) -> Seq<char> {
    if append_types {
        with_suffix(name, mode_suffix(mode))
    } else {
        name
    }
}

/// The short-format line of a path that is not listed as a directory (see
/// [`file_line_text`]).
pub fn file_line(name: &str, append_types: bool, mode: Option<u32>) -> (r: String)
    ensures
        r@ == file_line_text(name@, append_types, mode),
{
    let mut v = chars_of(name);
    if append_types {
        push_suffix(&mut v, mode_type_suffix(mode));
    }
    string_of(&v)
}

/// What an account lookup (`getent passwd` or `getent group`) printed.
pub struct LookupOutput {
    /// Whether the lookup exited successfully.
    pub success: bool,
    /// What it wrote to its standard output.
    pub stdout: String,
}

/// The characters of `s` before its first `:` (all of them if there is
/// none): the first field of a `getent` line.
pub open spec fn first_field(s: Seq<char>) -> Seq<char>
    decreases s.len(),
{
    if s.len() == 0 || s[0] == ':' {
        seq![]
    } else {
        seq![s[0]] + first_field(s.drop_first())
    }
}

/// The name shown for the owner or group with ID `id`: `unknown` when the
/// lookup could not be run, the ID in decimal when it failed, and the
/// first field of its output otherwise.
pub open spec fn account_text(lookup: Option<LookupOutput>, id: u32) -> Seq<char> {
    match lookup {
        None => "unknown"@,
        Some(out) => if out.success {
            first_field(out.stdout@)
        } else {
            decimal(id as nat)
        },
    }
}

/// The name shown for an owner or group (see [`account_text`]).
pub fn account_name(lookup: &Option<LookupOutput>, id: u32) -> (r: String)
    ensures
        r@ == account_text(*lookup, id),
{
    match lookup {
        None => owned("unknown"),
        Some(out) => {
            if out.success {
                let s = chars_of(out.stdout.as_str());
                let mut k: usize = 0;
                assert(s@.skip(0) =~= s@);
                assert(s@.take(0) + first_field(s@) =~= first_field(s@));
                while k < s.len() && s[k] != ':'
                    invariant
                        k <= s.len(),
                        first_field(s@) == s@.take(k as int) + first_field(s@.skip(k as int)),
                    decreases s.len() - k,
                {
                    assert(s@.skip(k as int)[0] == s@[k as int]);
                    assert(s@.skip(k as int).drop_first() =~= s@.skip(k + 1));
                    assert(s@.take(k as int) + seq![s@[k as int]] =~= s@.take(k + 1));
                    k = k + 1;
                }
                proof {
                    if k < s.len() {
                        assert(s@.skip(k as int)[0] == ':');
                    }
                    assert(s@.take(k as int) + first_field(s@.skip(k as int)) =~= s@.take(k as int));
                }
                let mut r: Vec<char> = Vec::new();
                let mut j: usize = 0;
                while j < k
                    invariant
                        j <= k <= s.len(),
                        r@ == s@.take(j as int),
                    decreases k - j,
                {
                    r.push(s[j]);
                    assert(s@.take(j as int).push(s@[j as int]) =~= s@.take(j + 1));
                    j = j + 1;
                }
                string_of(&r)
            } else {
                let d = decimal_chars(id as u64);
                string_of(&d)
            }
        },
    }
}

/// The `strftime` pattern of a modification time: month, day, hour and
/// minute for a time in the current year; month, day and year otherwise.
pub open spec fn mtime_pattern_text(mtime_year: i32, current_year: i32) -> Seq<char> {
    if mtime_year == current_year {
        "%b %e %H:%M"@
    } else {
        "%b %e  %Y"@
    }
}

/// The `strftime` pattern of a modification time (see
/// [`mtime_pattern_text`]).
pub fn mtime_pattern(mtime_year: i32, current_year: i32) -> (r: &'static str)
    ensures
        r@ == mtime_pattern_text(mtime_year, current_year),
{
    if mtime_year == current_year {
        "%b %e %H:%M"
    } else {
        "%b %e  %Y"
    }
}

/// The text of a modification time in the long listing: the UTC date and
/// time `utc` seen at `offset`, written by `chrono` after the pattern that
/// [`mtime_pattern`] chooses for its local year and `current_year`. `None`
/// exactly where chrono cannot hold the date, the time or the offset.
pub fn mtime_text(utc: (i32, u32, u32, u32, u32, u32), offset: i32, current_year: i32) -> (r: Option<
    String,
>)
    ensures
        r.is_some() <==> (is_date_time(utc) && is_utc_offset(offset)),
        r matches Some(s) ==> s@ == formatted_date_time(
            utc,
            offset,
            mtime_pattern_text(local_year_of(utc, offset), current_year),
        ),
{
    match year_at_offset(utc, offset) {
        Some(year) => {
            let pattern = mtime_pattern(year, current_year);
            format_at_offset(utc, offset, pattern)
        },
        None => None,
    }
}

/// The text of a modification time in the long listing, as
/// [`mtime_text`] writes it, for the UTC date and time `utc` seen at
/// `offset`, when the current time is `now` seen at `now_offset`.
pub open spec fn mtime_shown(
    utc: (i32, u32, u32, u32, u32, u32),
    offset: i32,
    now: (i32, u32, u32, u32, u32, u32),
    now_offset: i32,
) -> Seq<char> {
    formatted_date_time(
        utc,
        offset,
        mtime_pattern_text(local_year_of(utc, offset), local_year_of(now, now_offset)),
    )
}

/// The modification time `secs` seconds and `nanos` nanoseconds after the
/// Unix epoch as the long listing shows it, seen at the offset from UTC
/// `offset` (in seconds east), when the current time is `now_secs` and
/// `now_nanos` after the epoch, seen at `now_offset`: both instants are
/// taken as UTC dates and times by chrono (see [`mtime_shown`]). `None`
/// exactly where chrono does not hold one of the two instants or offsets.
pub fn format_mtime(
    secs: i64,
    nanos: u32,
    offset: i32,
    now_secs: i64,
    now_nanos: u32,
    now_offset: i32,
) -> (r: Option<String>)
    ensures
        r.is_some() <==> (utc_of(secs, nanos).is_some() && utc_of(now_secs, now_nanos).is_some()
            && is_utc_offset(offset) && is_utc_offset(now_offset)),
        r matches Some(s) ==> s@ == mtime_shown(
            utc_of(secs, nanos).unwrap(),
            offset,
            utc_of(now_secs, now_nanos).unwrap(),
            now_offset,
        ),
{
    let utc = match utc_from_timestamp(secs, nanos) {
        Some(u) => u,
        None => return None,
    };
    let now = match utc_from_timestamp(now_secs, now_nanos) {
        Some(u) => u,
        None => return None,
    };
    let current_year = match year_at_offset(now, now_offset) {
        Some(y) => y,
        None => return None,
    };
    mtime_text(utc, offset, current_year)
}

} // verus!

verus! {

/// Which paths `ls` lists the contents of: a directory always, in either
/// format; in the short format also a symbolic link that leads to a
/// directory; never a symbolic link in the long format, and never a path
/// of any other kind.
pub proof fn lemma_directories_are_listed(long_format: bool, kind: FileKind, target: Option<FileKind>)
    ensures
        kind == FileKind::Directory ==> lists_contents_of(long_format, kind, target),
        kind == FileKind::Symlink ==> (lists_contents_of(long_format, kind, target) <==> (
        !long_format && target == Some(FileKind::Directory))),
        kind != FileKind::Directory && kind != FileKind::Symlink ==> !lists_contents_of(
            long_format,
            kind,
            target,
        ),
{
}

} // verus!
