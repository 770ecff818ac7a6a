//! What `ls` shows of a file's mode and name: the type letter, the
//! permission string, the `-F` type suffixes, and quoting.

use vstd::prelude::*;
use crate::system::{
    block_device_bits, character_device_bits, directory_bits, fifo_bits, file_type_mask,
    regular_file_bits, socket_bits, symlink_bits,
};
use crate::text::{chars_of, string_of};

verus! {

/// The kind of a directory entry, as its `FileType` tells it.
#[derive(Clone, Copy, Debug, PartialEq, Eq, Structural)]
pub enum FileKind {
    Directory,
    Symlink,
    Fifo,
    Socket,
    Regular,
    CharDevice,
    BlockDevice,
    Unknown,
}

/// The file-type bits of a mode (`mode & S_IFMT`).
pub open spec fn type_bits(mode: u32) -> u32 {
    mode & 0o170000
}

/// The letter that `ls -l` shows for the type of a file with mode `mode`.
pub open spec fn type_letter(mode: u32) -> char {
    let t = type_bits(mode);
    if t == 0o040000 {
        'd'
    } else if t == 0o020000 {
        'c'
    } else if t == 0o060000 {
        'b'
    } else if t == 0o120000 {
        'l'
    } else if t == 0o010000 {
        'p'
    } else if t == 0o140000 {
        's'
    } else if t == 0o100000 {
        '-'
    } else {
        '?'
    }
}

/// The type letter of a mode (see [`type_letter`]).
pub fn file_type_char(mode: u32) -> (c: char)
    ensures
        c == type_letter(mode),
{
    let t = mode & file_type_mask();
    if t == directory_bits() {
        'd'
    } else if t == character_device_bits() {
        'c'
    } else if t == block_device_bits() {
        'b'
    } else if t == symlink_bits() {
        'l'
    } else if t == fifo_bits() {
        'p'
    } else if t == socket_bits() {
        's'
    } else if t == regular_file_bits() {
        '-'
    } else {
        '?'
    }
}

/// Whether any of the bits of `bit` is set in `mode`.
pub open spec fn has_bit(mode: u32, bit: u32) -> bool {
    mode & bit != 0
}

/// `letter` when the permission bit `bit` is set, `-` otherwise.
pub open spec fn permission_char(mode: u32, bit: u32, letter: char) -> char {
    if has_bit(mode, bit) {
        letter
    } else {
        '-'
    }
}

/// The execute position: `x` or `-` by the execute bit, replaced by
/// `on` or `off` (respectively) when the special bit is set.
pub open spec fn execute_char(mode: u32, bit: u32, special: u32, on: char, off: char) -> char {
    if has_bit(mode, bit) {
        if has_bit(mode, special) {
            on
        } else {
            'x'
        }
    } else {
        if has_bit(mode, special) {
            off
        } else {
            '-'
        }
    }
}

/// The nine permission characters of a mode: read, write and execute for
/// the owner, the group and others, with set-user-ID (`s`/`S`),
/// set-group-ID (`s`/`S`) and sticky (`t`/`T`) in the execute positions.
pub open spec fn permissions(mode: u32) -> Seq<char> {
    seq![
        permission_char(mode, 0o400, 'r'),
        permission_char(mode, 0o200, 'w'),
        execute_char(mode, 0o100, 0o4000, 's', 'S'),
        permission_char(mode, 0o040, 'r'),
        permission_char(mode, 0o020, 'w'),
        execute_char(mode, 0o010, 0o2000, 's', 'S'),
        permission_char(mode, 0o004, 'r'),
        permission_char(mode, 0o002, 'w'),
        execute_char(mode, 0o001, 0o1000, 't', 'T'),
    ]
}

/// The permission characters of a mode, followed by `+` when the file has
/// extended attributes.
pub open spec fn permissions_with(mode: u32, has_xattr: bool) -> Seq<char> {
    if has_xattr {
        permissions(mode).push('+')
    } else {
        permissions(mode)
    }
}

fn permission_exec(mode: u32, bit: u32, letter: char) -> (c: char)
    ensures
        c == permission_char(mode, bit, letter),
{
    if mode & bit != 0 {
        letter
    } else {
        '-'
    }
}

fn execute_exec(mode: u32, bit: u32, special: u32, on: char, off: char) -> (c: char)
    ensures
        c == execute_char(mode, bit, special, on, off),
{
    if mode & bit != 0 {
        if mode & special != 0 {
            on
        } else {
            'x'
        }
    } else {
        if mode & special != 0 {
            off
        } else {
            '-'
        }
    }
}

/// The permission string of a file with mode `mode`, with `+` when the
/// file has extended attributes (`has_xattr`, which the caller reads from
/// the file system); see [`permissions_with`].
pub fn format_mode(mode: u32, has_xattr: bool) -> (r: String)
    ensures
        r@ == permissions_with(mode, has_xattr),
{
    let mut v: Vec<char> = Vec::new();
    v.push(permission_exec(mode, 0o400, 'r'));
    v.push(permission_exec(mode, 0o200, 'w'));
    v.push(execute_exec(mode, 0o100, 0o4000, 's', 'S'));
    v.push(permission_exec(mode, 0o040, 'r'));
    v.push(permission_exec(mode, 0o020, 'w'));
    v.push(execute_exec(mode, 0o010, 0o2000, 's', 'S'));
    v.push(permission_exec(mode, 0o004, 'r'));
    v.push(permission_exec(mode, 0o002, 'w'));
    v.push(execute_exec(mode, 0o001, 0o1000, 't', 'T'));
    assert(v@ =~= permissions(mode));
    if has_xattr {
        v.push('+');
    }
    string_of(&v)
}

/// Whether any execute bit is set.
pub open spec fn is_executable(mode: u32) -> bool {
    mode & 0o111 != 0
}

/// The `-F` suffix of a directory entry of kind `kind` whose mode is
/// `mode`: `/` for a directory, `@` for a symbolic link, `|` for a named
/// pipe, `=` for a socket, `*` for an executable regular file.
pub open spec fn entry_suffix(kind: FileKind, mode: u32) -> Option<char> {
    match kind {
        FileKind::Directory => Some('/'),
        FileKind::Symlink => Some('@'),
        FileKind::Fifo => Some('|'),
        FileKind::Socket => Some('='),
        FileKind::Regular => if is_executable(mode) {
            Some('*')
        } else {
            None
        },
        _ => None,
    }
}

/// Whether the `-F` suffix of an entry of this kind depends on its
/// permission bits (only a regular file's does).
pub fn suffix_needs_mode(kind: FileKind) -> (r: bool)
    ensures
        r == (kind == FileKind::Regular),
{
    match kind {
        FileKind::Regular => true,
        _ => false,
    }
}

/// The `-F` suffix of a directory entry (see [`entry_suffix`]).
pub fn entry_type_suffix(kind: FileKind, mode: u32) -> (r: Option<char>)
    ensures
        r == entry_suffix(kind, mode),
{
    match kind {
        FileKind::Directory => Some('/'),
        FileKind::Symlink => Some('@'),
        FileKind::Fifo => Some('|'),
        FileKind::Socket => Some('='),
        FileKind::Regular => if mode & 0o111 != 0 {
            Some('*')
        } else {
            None
        },
        _ => None,
    }
}

/// The `-F` suffix from a file's mode, when its metadata (not following a
/// symbolic link) could be read: `/` for a directory, `@` for a symbolic
/// link, `|` for a named pipe, `=` for a socket, `*` for an executable
/// regular file; nothing for other files or when the metadata is missing.
pub open spec fn mode_suffix(mode: Option<u32>) -> Option<char> {
    match mode {
        None => None,
        Some(m) => {
            let t = type_bits(m);
            if t == 0o040000 {
                Some('/')
            } else if t == 0o120000 {
                Some('@')
            } else if t == 0o010000 {
                Some('|')
            } else if t == 0o140000 {
                Some('=')
            } else if t == 0o100000 && is_executable(m) {
                Some('*')
            } else {
                None
            }
        },
    }
}

/// The `-F` suffix from a file's mode (see [`mode_suffix`]).
pub fn mode_type_suffix(mode: Option<u32>) -> (r: Option<char>)
    ensures
        r == mode_suffix(mode),
{
    match mode {
        None => None,
        Some(m) => {
            let t = m & file_type_mask();
            if t == directory_bits() {
                Some('/')
            } else if t == symlink_bits() {
                Some('@')
            } else if t == fifo_bits() {
                Some('|')
            } else if t == socket_bits() {
                Some('=')
            } else if t == regular_file_bits() && m & 0o111 != 0 {
                Some('*')
            } else {
                None
            }
        },
    }
}

/// The `-F` suffix of a name in the long listing: as [`mode_suffix`], but
/// none for a symbolic link, whose line shows ` -> target` instead (as
/// GNU `ls -lF` does).
pub open spec fn long_name_suffix(mode: Option<u32>) -> Option<char> {
    match mode {
        Some(m) => if type_bits(m) == 0o120000 {
            None
        } else {
            mode_suffix(mode)
        },
        None => None,
    }
}

/// The `-F` suffix of a name in the long listing (see
/// [`long_name_suffix`]).
pub fn long_name_type_suffix(mode: Option<u32>) -> (r: Option<char>)
    ensures
        r == long_name_suffix(mode),
{
    match mode {
        Some(m) => if m & file_type_mask() == symlink_bits() {
            None
        } else {
            mode_type_suffix(mode)
        },
        None => None,
    }
}

/// `name` followed by the suffix, if any.
pub open spec fn with_suffix(name: Seq<char>, suffix: Option<char>) -> Seq<char> {
    match suffix {
        Some(c) => name.push(c),
        None => name,
    }
}

/// Appends the suffix, if any.
pub fn push_suffix(name: &mut Vec<char>, suffix: Option<char>)
    ensures
        final(name)@ == with_suffix(old(name)@, suffix),
{
    match suffix {
        Some(c) => name.push(c),
        None => {},
    }
}

/// The characters that make a file name need quotes: whitespace and shell
/// metacharacters.
pub open spec fn is_special_char(c: char) -> bool {
    c == ' ' || c == '\t' || c == '\n' || c == '\'' || c == '"' || c == '\\' || c == '['
        || c == ']' || c == '{' || c == '}' || c == '(' || c == ')' || c == '*' || c == '?'
        || c == '~' || c == '!' || c == '$' || c == '&' || c == ';' || c == '|' || c == '<'
        || c == '>' || c == '`'
}

/// Whether `name` holds a special character.
pub open spec fn needs_quotes(name: Seq<char>) -> bool {
    exists|i: int| 0 <= i < name.len() && is_special_char(#[trigger] name[i])
}

/// `name` in single quotes when it needs them, as it is otherwise.
pub open spec fn quoted(name: Seq<char>) -> Seq<char> {
    if needs_quotes(name) {
        seq!['\''] + name + seq!['\'']
    } else {
        name
    }
}

fn is_special(c: char) -> (r: bool)
    ensures
        r == is_special_char(c),
{
    c == ' ' || c == '\t' || c == '\n' || c == '\'' || c == '"' || c == '\\' || c == '['
        || c == ']' || c == '{' || c == '}' || c == '(' || c == ')' || c == '*' || c == '?'
        || c == '~' || c == '!' || c == '$' || c == '&' || c == ';' || c == '|' || c == '<'
        || c == '>' || c == '`'
}

/// `name` in single quotes when it needs them (see [`quoted`]).
pub fn quote_chars(name: &Vec<char>) -> (r: Vec<char>)
    ensures
        r@ == quoted(name@),
{
    let mut i: usize = 0;
    let mut needs = false;
    while i < name.len()
        invariant
            i <= name.len(),
            needs == exists|k: int| 0 <= k < i && is_special_char(#[trigger] name@[k]),
        decreases name.len() - i,
    {
        if is_special(name[i]) {
            needs = true;
        }
        i = i + 1;
    }
    if needs {
        let mut r: Vec<char> = Vec::new();
        r.push('\'');
        crate::text::append_chars(&mut r, name);
        r.push('\'');
        assert(r@ =~= seq!['\''] + name@ + seq!['\'']);
        r
    } else {
        name.clone()
    }
}

/// `name` in single quotes when it holds whitespace or a shell
/// metacharacter (see [`quoted`]).
pub fn quote_filename(name: &str) -> (r: String)
    ensures
        r@ == quoted(name@),
{
    let v = chars_of(name);
    let q = quote_chars(&v);
    string_of(&q)
}

} // verus!

verus! {

/// A name as `ls` shows it can be typed back into this shell: when the
/// name holds no single quote, backslash, `~` or `#`, the words of what
/// `ls` shows are the name alone.
pub proof fn lemma_shown_name_reads_back(name: Seq<char>, home: Option<Seq<char>>)
    requires
        name.len() > 0,
        forall|m: int|
            0 <= m < name.len() ==> #[trigger] name[m] != '\'' && name[m] != '\\' && name[m] != '~'
                && name[m] != '#',
    ensures
        crate::parser::words_of(quoted(name), home) == seq![name],
{
    if needs_quotes(name) {
        crate::parser::lemma_single_quoted_word(name, home);
    } else {
        assert forall|m: int| 0 <= m < name.len() implies crate::parser::is_plain_char(#[trigger] name[m]) by {
            if !crate::parser::is_plain_char(name[m]) {
                assert(is_special_char(name[m]));
            }
        }
        crate::parser::lemma_plain_word(name, home);
    }
}

} // verus!

verus! {

/// The permission string, character by character: owner, group and
/// others each get `r` or `-` by their read bit and `w` or `-` by their
/// write bit; the execute position is `x` by the execute bit alone, the
/// special letter (`s` for set-user-ID and set-group-ID, `t` for sticky)
/// when both the execute bit and the special bit are set, its capital
/// when only the special bit is, and `-` when neither is; a `+` follows
/// exactly when the file has extended attributes.
pub proof fn lemma_permission_characters(mode: u32, has_xattr: bool)
    ensures
        permissions_with(mode, has_xattr).len() == (if has_xattr { 10int } else { 9int }),
        permissions_with(mode, has_xattr)[0] == (if mode & 0o400 != 0 { 'r' } else { '-' }),
        permissions_with(mode, has_xattr)[1] == (if mode & 0o200 != 0 { 'w' } else { '-' }),
        permissions_with(mode, has_xattr)[2] == (if mode & 0o100 != 0 && mode & 0o4000 != 0 {
            's'
        } else if mode & 0o4000 != 0 {
            'S'
        } else if mode & 0o100 != 0 {
            'x'
        } else {
            '-'
        }),
        permissions_with(mode, has_xattr)[3] == (if mode & 0o040 != 0 { 'r' } else { '-' }),
        permissions_with(mode, has_xattr)[4] == (if mode & 0o020 != 0 { 'w' } else { '-' }),
        permissions_with(mode, has_xattr)[5] == (if mode & 0o010 != 0 && mode & 0o2000 != 0 {
            's'
        } else if mode & 0o2000 != 0 {
            'S'
        } else if mode & 0o010 != 0 {
            'x'
        } else {
            '-'
        }),
        permissions_with(mode, has_xattr)[6] == (if mode & 0o004 != 0 { 'r' } else { '-' }),
        permissions_with(mode, has_xattr)[7] == (if mode & 0o002 != 0 { 'w' } else { '-' }),
        permissions_with(mode, has_xattr)[8] == (if mode & 0o001 != 0 && mode & 0o1000 != 0 {
            't'
        } else if mode & 0o1000 != 0 {
            'T'
        } else if mode & 0o001 != 0 {
            'x'
        } else {
            '-'
        }),
        has_xattr ==> permissions_with(mode, has_xattr)[9] == '+',
{
}

} // verus!
