//! The two listings of a directory: the short one (names in columns) and
//! the long one (`-l`: one line of details per entry, after a total of
//! blocks).

use vstd::prelude::*;
use super::layout::{byte_len, column_layout, layout};
use super::mode::{
    entry_suffix, entry_type_suffix, long_name_suffix, long_name_type_suffix, mode_suffix,
    mode_type_suffix, push_suffix,
    quote_chars, quoted, type_bits, type_letter, with_suffix, file_type_char, FileKind,
};
use super::order::{
    in_listing_order, is_listing_order, lemma_is_the_listing_order, listing_order,
    listing_permutation,
};
use super::entry::{account_name, account_text, format_mtime, mtime_shown, LookupOutput};
use super::mode::{format_mode, permissions_with};
use crate::system::{
    block_device_bits, character_device_bits, device_major, device_minor, file_type_mask,
    is_utc_offset, terminal_dimensions, utc_of,
};
use crate::text::{
    append_chars, append_padded_left, append_str, chars_of, decimal, decimal_chars, pad_left,
    string_of,
};

verus! {

/// Whether a name starts with a dot.
pub open spec fn is_hidden(name: Seq<char>) -> bool {
    name.len() > 0 && name[0] == '.'
}

/// Whether a directory entry is listed: all are with `-a`, otherwise those
/// whose name does not start with a dot.
pub open spec fn is_listed(name: Seq<char>, show_all: bool) -> bool {
    show_all || !is_hidden(name)
}

/// Whether an entry named `name` is listed (see [`is_listed`]).
pub fn entry_is_listed(name: &str, show_all: bool) -> (r: bool)
    ensures
        r == is_listed(name@, show_all),
{
    if show_all {
        return true;
    }
    let c = chars_of(name);
    !(c.len() > 0 && c[0] == '.')
}

/// A directory entry as the short listing needs it: its name, its kind, and
/// its mode (read only for a regular file, whose `-F` suffix depends on its
/// execute bits).
pub struct ShortEntry {
    pub name: String,
    pub kind: FileKind,
    pub mode: u32,
}

/// What the short listing shows for an entry: its name, with its `-F`
/// suffix when `append_types`, quoted when needed.
pub open spec fn short_name(e: ShortEntry, append_types: bool) -> Seq<char> {
    quoted(
        if append_types {
            with_suffix(e.name@, entry_suffix(e.kind, e.mode))
        } else {
            e.name@
        },
    )
}

/// The names that the short listing shows, before sorting: `.` and `..`
/// with `-a`, then each listed entry.
pub open spec fn short_names(entries: Seq<ShortEntry>, show_all: bool, append_types: bool) -> Seq<
    Seq<char>,
>
    decreases entries.len(),
{
    if entries.len() == 0 {
        if show_all {
            seq![seq!['.'], seq!['.', '.']]
        } else {
            seq![]
        }
    } else {
        let before = short_names(entries.drop_last(), show_all, append_types);
        if is_listed(entries.last().name@, show_all) {
            before.push(short_name(entries.last(), append_types))
        } else {
            before
        }
    }
}

/// The lines of the short listing of a directory holding `entries`, on a
/// terminal `width` characters wide: the shown names in listing order, in
/// columns.
pub open spec fn short_listing_lines(
    entries: Seq<ShortEntry>,
    show_all: bool,
    append_types: bool,
    width: nat,
) -> Seq<Seq<char>> {
    layout(in_listing_order(short_names(entries, show_all, append_types)), width)
}

/// The width to lay a listing out for, from the terminal's `(width,
/// height)` when it is known: that width, else 80.
pub fn width_or_default(dimensions: Option<(usize, usize)>) -> (w: usize)
    ensures
        w == (match dimensions {
            Some((width, _)) => width,
            None => 80,
        }),
{
    match dimensions {
        Some((w, _)) => w,
        None => 80,
    }
}

/// The width of the terminal, 80 when it cannot be told (see
/// [`width_or_default`]). Which it is depends on the terminal.
pub fn terminal_width() -> (w: usize)
    ensures
        w == 80 || 1 <= w <= 0xffff,
{
    width_or_default(terminal_dimensions())
}

/// The short listing of a directory holding `entries` (see
/// [`short_listing_lines`]).
pub fn short_listing(
    entries: &Vec<ShortEntry>,
    show_all: bool,
    append_types: bool,
    width: usize,
) -> (lines: Vec<String>)
    requires
        forall|k: int|
            0 <= k < short_names(entries@, show_all, append_types).len() ==> byte_len(
                #[trigger] short_names(entries@, show_all, append_types)[k],
            ) + 2 <= usize::MAX,
    ensures
        lines@.map_values(|s: String| s@) == short_listing_lines(
            entries@,
            show_all,
            append_types,
            width as nat,
        ),
{
    let ghost shown = short_names(entries@, show_all, append_types);
    let mut names: Vec<String> = Vec::new();
    if show_all {
        let mut dot: Vec<char> = Vec::new();
        dot.push('.');
        let mut dotdot: Vec<char> = Vec::new();
        dotdot.push('.');
        dotdot.push('.');
        assert(dot@ =~= seq!['.']);
        assert(dotdot@ =~= seq!['.', '.']);
        names.push(string_of(&dot));
        names.push(string_of(&dotdot));
    }
    assert(entries@.take(0).len() == 0);
    proof {
        if show_all {
            assert(names@.map_values(|s: String| s@) =~= short_names(entries@.take(0), show_all, append_types));
        } else {
            assert(names@.map_values(|s: String| s@) =~= short_names(entries@.take(0), show_all, append_types));
        }
    }
    let mut i: usize = 0;
    while i < entries.len()
        invariant
            i <= entries.len(),
            names@.map_values(|s: String| s@) == short_names(entries@.take(i as int), show_all, append_types),
        decreases entries.len() - i,
    {
        let e = &entries[i];
        assert(entries@.take(i + 1).drop_last() =~= entries@.take(i as int));
        assert(entries@.take(i + 1).last() == entries@[i as int]);
        if entry_is_listed(e.name.as_str(), show_all) {
            let mut text = chars_of(e.name.as_str());
            if append_types {
                push_suffix(&mut text, entry_type_suffix(e.kind, e.mode));
            }
            let q = quote_chars(&text);
            let shown_name = string_of(&q);
            let ghost before = names@;
            names.push(shown_name);
            assert(names@.map_values(|s: String| s@) =~= before.map_values(|s: String| s@).push(shown_name@));
        }
        i = i + 1;
    }
    assert(entries@.take(entries.len() as int) =~= entries@);
    let ghost views = names@.map_values(|s: String| s@);
    assert(views == shown);
    let order = listing_order(&names);
    let ghost o = order@.map_values(|k: usize| k as int);
    proof {
        lemma_is_the_listing_order(views, o);
    }
    let mut sorted: Vec<String> = Vec::new();
    let mut k: usize = 0;
    while k < order.len()
        invariant
            views == names@.map_values(|s: String| s@),
            is_listing_order(views, o),
            o == order@.map_values(|k: usize| k as int),
            k <= order.len(),
            sorted@.map_values(|s: String| s@) == o.map_values(|j: int| views[j]).take(k as int),
        decreases order.len() - k,
    {
        let j = order[k];
        assert(o[k as int] == j as int);
        let s = crate::text::owned(names[j].as_str());
        let ghost before = sorted@;
        sorted.push(s);
        assert(sorted@.map_values(|s: String| s@) =~= before.map_values(|s: String| s@).push(s@));
        assert(o.map_values(|j: int| views[j]).take(k as int).push(views[j as int]) =~= o.map_values(
            |j: int| views[j],
        ).take(k + 1));
        k = k + 1;
    }
    assert(o.map_values(|j: int| views[j]).take(order.len() as int) =~= o.map_values(|j: int| views[j]));
    let ghost sorted_views = sorted@.map_values(|s: String| s@);
    assert(sorted_views == in_listing_order(shown));
    assert forall|k: int| 0 <= k < sorted.len() implies byte_len(#[trigger] sorted@[k]@) + 2 <= usize::MAX by {
        assert(sorted_views[k] == sorted@[k]@);
        assert(sorted_views[k] == views[o[k]]);
    }
    column_layout(&sorted, width)
}

} // verus!

verus! {

/// A file as the long listing needs it.
pub struct LongEntry {
    /// The file's name in its directory (or the path given on the command line).
    pub name: String,
    /// `st_mode`, without following a symbolic link.
    pub mode: u32,
    /// The permission string (see `format_mode`).
    pub permissions: String,
    /// The number of hard links.
    pub links: u64,
    /// The owner's name.
    pub owner: String,
    /// The group's name.
    pub group: String,
    /// The size in bytes.
    pub size: u64,
    /// The device ID, for a device file.
    pub device: u64,
    /// The number of 512-byte blocks allocated.
    pub blocks: u64,
    /// The modification time as text.
    pub modified: String,
    /// The mode of the file's path without following a symbolic link, when
    /// it could be read again.
    pub path_mode: Option<u32>,
    /// The target of a symbolic link, when it could be read.
    pub link_target: Option<String>,
    /// The mode of what the path leads to after following links, when it
    /// could be read.
    pub target_mode: Option<u32>,
}

/// What the file system tells of a file for its long-listing line, as
/// plain values.
pub struct FileFacts {
    /// The file's name in its directory (or the path given on the command line).
    pub name: String,
    /// `st_mode`.
    pub mode: u32,
    /// Whether the file has extended attributes.
    pub has_xattr: bool,
    /// The number of hard links.
    pub links: u64,
    /// The owner's user ID.
    pub uid: u32,
    /// The group ID.
    pub gid: u32,
    /// The size in bytes.
    pub size: u64,
    /// The device ID, for a device file.
    pub device: u64,
    /// The number of 512-byte blocks allocated.
    pub blocks: u64,
    /// The modification time: whole seconds after the Unix epoch...
    pub mtime_secs: i64,
    /// ... and nanoseconds beyond them.
    pub mtime_nanos: u32,
    /// The machine's offset from UTC at the modification time, in seconds
    /// east.
    pub mtime_offset: i32,
    /// The mode of the path without following a symbolic link, when it
    /// could be read again.
    pub path_mode: Option<u32>,
    /// The target of a symbolic link, when it could be read.
    pub link_target: Option<String>,
    /// The mode of what the path leads to after following links, when it
    /// could be read.
    pub target_mode: Option<u32>,
}

/// The long-listing entry of a file from its `facts`, the lookups of its
/// owner and group, and the current time (`now_secs` seconds and
/// `now_nanos` nanoseconds after the Unix epoch, at the offset from UTC
/// `now_offset`): the facts carried over, the permission string of its
/// mode (see [`permissions_with`]), the owner and group names (see
/// [`account_text`]), and the modification time as [`format_mtime`]
/// writes it. `None` exactly where `format_mtime` gives none.
pub fn long_entry_of(
    facts: FileFacts,
    owner: &Option<LookupOutput>,
    group: &Option<LookupOutput>,
    now_secs: i64,
    now_nanos: u32,
    now_offset: i32,
) -> (r: Option<LongEntry>)
    ensures
        r.is_some() <==> (utc_of(facts.mtime_secs, facts.mtime_nanos).is_some() && utc_of(
            now_secs,
            now_nanos,
        ).is_some() && is_utc_offset(facts.mtime_offset) && is_utc_offset(now_offset)),
        r matches Some(e) ==> {
            &&& e.name@ == facts.name@
            &&& e.mode == facts.mode
            &&& e.permissions@ == permissions_with(facts.mode, facts.has_xattr)
            &&& e.links == facts.links
            &&& e.owner@ == account_text(*owner, facts.uid)
            &&& e.group@ == account_text(*group, facts.gid)
            &&& e.size == facts.size
            &&& e.device == facts.device
            &&& e.blocks == facts.blocks
            &&& e.modified@ == mtime_shown(
                utc_of(facts.mtime_secs, facts.mtime_nanos).unwrap(),
                facts.mtime_offset,
                utc_of(now_secs, now_nanos).unwrap(),
                now_offset,
            )
            &&& e.path_mode == facts.path_mode
            &&& e.link_target == facts.link_target
            &&& e.target_mode == facts.target_mode
        },
{
    let modified = match format_mtime(
        facts.mtime_secs,
        facts.mtime_nanos,
        facts.mtime_offset,
        now_secs,
        now_nanos,
        now_offset,
    ) {
        Some(m) => m,
        None => return None,
    };
    let permissions = format_mode(facts.mode, facts.has_xattr);
    let owner_name = account_name(owner, facts.uid);
    let group_name = account_name(group, facts.gid);
    Some(
        LongEntry {
            name: facts.name,
            mode: facts.mode,
            permissions,
            links: facts.links,
            owner: owner_name,
            group: group_name,
            size: facts.size,
            device: facts.device,
            blocks: facts.blocks,
            modified,
            path_mode: facts.path_mode,
            link_target: facts.link_target,
            target_mode: facts.target_mode,
        },
    )
}

/// The size column: `major, minor` for a character or block device, the
/// size in bytes otherwise.
pub open spec fn size_text(e: LongEntry) -> Seq<char> {
    let t = type_bits(e.mode);
    if t == 0o020000 || t == 0o060000 {
        decimal(crate::system::major_of(e.device) as nat) + seq![',', ' '] + decimal(
            crate::system::minor_of(e.device) as nat,
        )
    } else {
        decimal(e.size as nat)
    }
}

/// The name column: the name quoted when needed, then its `-F` suffix.
pub open spec fn long_display_name(e: LongEntry, name: Seq<char>, append_types: bool) -> Seq<char> {
    if append_types {
        with_suffix(quoted(name), long_name_suffix(e.path_mode))
    } else {
        quoted(name)
    }
}

/// ` -> target` after a symbolic link whose target could be read, the
/// target followed by its `-F` suffix with `append_types`.
pub open spec fn link_text(e: LongEntry, append_types: bool) -> Seq<char> {
    if type_letter(e.mode) == 'l' {
        match e.link_target {
            Some(t) => seq![' ', '-', '>', ' '] + (if append_types {
                with_suffix(t@, mode_suffix(e.target_mode))
            } else {
                t@
            }),
            None => seq![],
        }
    } else {
        seq![]
    }
}

/// The long-listing line of a file shown as `name`: type letter and
/// permissions, then links (width 3), owner, group and size (width 8 each,
/// right-aligned), modification time and name, separated by spaces.
pub open spec fn entry_line(e: LongEntry, name: Seq<char>, append_types: bool) -> Seq<char> {
    seq![type_letter(e.mode)] + e.permissions@ + seq![' '] + pad_left(decimal(e.links as nat), 3)
        + seq![' '] + pad_left(e.owner@, 8) + seq![' '] + pad_left(e.group@, 8) + seq![' ']
        + pad_left(size_text(e), 8) + seq![' '] + e.modified@ + seq![' '] + long_display_name(
        e,
        name,
        append_types,
    ) + link_text(e, append_types)
}

fn size_chars(e: &LongEntry) -> (r: Vec<char>)
    ensures
        r@ == size_text(*e),
{
    let t = e.mode & file_type_mask();
    if t == character_device_bits() || t == block_device_bits() {
        let mut r = decimal_chars(device_major(e.device) as u64);
        r.push(',');
        r.push(' ');
        let m = decimal_chars(device_minor(e.device) as u64);
        append_chars(&mut r, &m);
        assert(r@ =~= size_text(*e));
        r
    } else {
        decimal_chars(e.size)
    }
}

/// The long-listing line of `e` shown as `name` (see [`entry_line`]).
pub fn long_entry_line(e: &LongEntry, name: &str, append_types: bool) -> (r: String)
    ensures
        r@ == entry_line(*e, name@, append_types),
{
    let ftype = file_type_char(e.mode);
    let mut v: Vec<char> = Vec::new();
    v.push(ftype);
    append_str(&mut v, e.permissions.as_str());
    v.push(' ');
    append_padded_left(&mut v, &decimal_chars(e.links), 3);
    v.push(' ');
    append_padded_left(&mut v, &chars_of(e.owner.as_str()), 8);
    v.push(' ');
    append_padded_left(&mut v, &chars_of(e.group.as_str()), 8);
    v.push(' ');
    append_padded_left(&mut v, &size_chars(e), 8);
    v.push(' ');
    append_str(&mut v, e.modified.as_str());
    v.push(' ');
    let mut display = quote_chars(&chars_of(name));
    if append_types {
        push_suffix(&mut display, long_name_type_suffix(e.path_mode));
    }
    append_chars(&mut v, &display);
    if ftype == 'l' {
        match &e.link_target {
            Some(t) => {
                v.push(' ');
                v.push('-');
                v.push('>');
                v.push(' ');
                let mut target = chars_of(t.as_str());
                if append_types {
                    push_suffix(&mut target, mode_type_suffix(e.target_mode));
                }
                append_chars(&mut v, &target);
            },
            None => {},
        }
    }
    assert(v@ =~= entry_line(*e, name@, append_types));
    string_of(&v)
}

} // verus!

verus! {

/// An optional entry shown under `name`.
pub open spec fn optional_item(e: Option<LongEntry>, name: Seq<char>) -> Seq<(LongEntry, Seq<char>)> {
    match e {
        Some(x) => seq![(x, name)],
        None => seq![],
    }
}

/// The listed entries, each shown under its own name.
pub open spec fn listed_entries(entries: Seq<LongEntry>, show_all: bool) -> Seq<(LongEntry, Seq<char>)>
    decreases entries.len(),
{
    if entries.len() == 0 {
        seq![]
    } else {
        let before = listed_entries(entries.drop_last(), show_all);
        if is_listed(entries.last().name@, show_all) {
            before.push((entries.last(), entries.last().name@))
        } else {
            before
        }
    }
}

/// What the long listing shows, before sorting: with `-a`, the directory
/// itself as `.` and its parent as `..` (those whose metadata could be
/// read), then each listed entry.
pub open spec fn long_items(
    dot: Option<LongEntry>,
    dotdot: Option<LongEntry>,
    entries: Seq<LongEntry>,
    show_all: bool,
) -> Seq<(LongEntry, Seq<char>)> {
    (if show_all {
        optional_item(dot, seq!['.']) + optional_item(dotdot, seq!['.', '.'])
    } else {
        seq![]
    }) + listed_entries(entries, show_all)
}

/// The sum of the blocks of the shown entries.
pub open spec fn blocks_total(items: Seq<(LongEntry, Seq<char>)>) -> nat
    decreases items.len(),
{
    if items.len() == 0 {
        0
    } else {
        blocks_total(items.drop_last()) + items.last().0.blocks as nat
    }
}

/// `total N`, where `N` counts 1024-byte blocks: half the number of
/// 512-byte blocks, rounded down.
pub open spec fn total_line(blocks: nat) -> Seq<char> {
    seq!['t', 'o', 't', 'a', 'l', ' '] + decimal(blocks / 2)
}

/// The lines of the long listing: the total, then one line per shown
/// entry, in listing order of the names they are shown under.
pub open spec fn long_listing_lines(
    dot: Option<LongEntry>,
    dotdot: Option<LongEntry>,
    entries: Seq<LongEntry>,
    show_all: bool,
    append_types: bool,
) -> Seq<Seq<char>> {
    let items = long_items(dot, dotdot, entries, show_all);
    let order = listing_permutation(items.map_values(|p: (LongEntry, Seq<char>)| p.1));
    seq![total_line(blocks_total(items))] + order.map_values(
        |k: int| entry_line(items[k].0, items[k].1, append_types),
    )
}

proof fn lemma_blocks_total_push(items: Seq<(LongEntry, Seq<char>)>, x: (LongEntry, Seq<char>))
    ensures
        blocks_total(items.push(x)) == blocks_total(items) + x.0.blocks,
{
    assert(items.push(x).drop_last() =~= items);
}

proof fn lemma_blocks_total_concat(a: Seq<(LongEntry, Seq<char>)>, b: Seq<(LongEntry, Seq<char>)>)
    ensures
        blocks_total(a + b) == blocks_total(a) + blocks_total(b),
    decreases b.len(),
{
    if b.len() == 0 {
        assert(a + b =~= a);
    } else {
        lemma_blocks_total_concat(a, b.drop_last());
        assert((a + b).drop_last() =~= a + b.drop_last());
    }
}

proof fn lemma_listed_blocks_grow(entries: Seq<LongEntry>, show_all: bool, i: int, j: int)
    requires
        0 <= i <= j <= entries.len(),
    ensures
        blocks_total(listed_entries(entries.take(i), show_all)) <= blocks_total(
            listed_entries(entries.take(j), show_all),
        ),
    decreases j - i,
{
    if i < j {
        lemma_listed_blocks_grow(entries, show_all, i, j - 1);
        assert(entries.take(j).drop_last() =~= entries.take(j - 1));
        let prev = listed_entries(entries.take(j - 1), show_all);
        let last = entries.take(j).last();
        if is_listed(last.name@, show_all) {
            lemma_blocks_total_push(prev, (last, last.name@));
        }
    }
}

/// The entry that a source number stands for: 0 the directory itself,
/// 1 its parent, `k + 2` the `k`-th entry.
spec fn source_entry(
    dot: Option<LongEntry>,
    dotdot: Option<LongEntry>,
    entries: Seq<LongEntry>,
    s: int,
) -> LongEntry {
    if s == 0 {
        dot.unwrap()
    } else if s == 1 {
        dotdot.unwrap()
    } else {
        entries[s - 2]
    }
}

/// The long listing of a directory (see [`long_listing_lines`]): `dot` and
/// `dotdot` are the directory itself and its parent.
pub fn long_listing(
    dot: &Option<LongEntry>,
    dotdot: &Option<LongEntry>,
    entries: &Vec<LongEntry>,
    show_all: bool,
    append_types: bool,
) -> (lines: Vec<String>)
    requires
        blocks_total(long_items(*dot, *dotdot, entries@, show_all)) <= u64::MAX,
        entries.len() + 2 <= usize::MAX,
    ensures
        lines@.map_values(|s: String| s@) == long_listing_lines(
            *dot,
            *dotdot,
            entries@,
            show_all,
            append_types,
        ),
{
    let ghost all_items = long_items(*dot, *dotdot, entries@, show_all);
    let ghost head: Seq<(LongEntry, Seq<char>)> = if show_all {
        optional_item(*dot, seq!['.']) + optional_item(*dotdot, seq!['.', '.'])
    } else {
        seq![]
    };
    let mut names: Vec<String> = Vec::new();
    let mut sources: Vec<usize> = Vec::new();
    let mut total: u64 = 0;
    let ghost mut items: Seq<(LongEntry, Seq<char>)> = seq![];
    proof {
        lemma_blocks_total_concat(head, listed_entries(entries@, show_all));
    }
    if show_all {
        match dot {
            Some(d) => {
                let mut n: Vec<char> = Vec::new();
                n.push('.');
                assert(n@ =~= seq!['.']);
                names.push(string_of(&n));
                sources.push(0);
                proof {
                    lemma_blocks_total_push(items, (*d, seq!['.']));
                    items = items.push((*d, seq!['.']));
                    assert(items =~= optional_item(*dot, seq!['.']));
                }
                total = d.blocks;
            },
            None => {
                assert(items =~= optional_item(*dot, seq!['.']));
            },
        }
        let ghost after_dot = items;
        match dotdot {
            Some(d) => {
                let mut n: Vec<char> = Vec::new();
                n.push('.');
                n.push('.');
                assert(n@ =~= seq!['.', '.']);
                names.push(string_of(&n));
                sources.push(1);
                proof {
                    lemma_blocks_total_push(items, (*d, seq!['.', '.']));
                    lemma_blocks_total_concat(after_dot, optional_item(*dotdot, seq!['.', '.']));
                    items = items.push((*d, seq!['.', '.']));
                    assert(items =~= after_dot + optional_item(*dotdot, seq!['.', '.']));
                    assert(blocks_total(items) <= blocks_total(head));
                }
                total = total + d.blocks;
            },
            None => {
                assert(items =~= after_dot + optional_item(*dotdot, seq!['.', '.']));
            },
        }
    }
    assert(items == head);
    assert(entries@.take(0) =~= seq![]);
    assert(items =~= head + listed_entries(entries@.take(0), show_all));
    let mut i: usize = 0;
    while i < entries.len()
        invariant
            all_items == long_items(*dot, *dotdot, entries@, show_all),
            blocks_total(all_items) <= u64::MAX,
            blocks_total(all_items) == blocks_total(head) + blocks_total(listed_entries(entries@, show_all)),
            head == (if show_all {
                optional_item(*dot, seq!['.']) + optional_item(*dotdot, seq!['.', '.'])
            } else {
                seq![]
            }),
            i <= entries.len(),
            entries.len() + 2 <= usize::MAX,
            items == head + listed_entries(entries@.take(i as int), show_all),
            total == blocks_total(items),
            names.len() == items.len(),
            sources.len() == items.len(),
            forall|m: int| 0 <= m < items.len() ==> (#[trigger] names@[m])@ == items[m].1,
            forall|m: int|
                0 <= m < items.len() ==> source_entry(*dot, *dotdot, entries@, #[trigger] sources@[m] as int)
                    == items[m].0,
            forall|m: int|
                0 <= m < items.len() ==> (#[trigger] sources@[m] == 0 ==> dot is Some) && (sources@[m] == 1
                    ==> dotdot is Some) && sources@[m] < entries.len() + 2,
        decreases entries.len() - i,
    {
        let e = &entries[i];
        assert(entries@.take(i + 1).drop_last() =~= entries@.take(i as int));
        assert(entries@.take(i + 1).last() == entries@[i as int]);
        if entry_is_listed(e.name.as_str(), show_all) {
            proof {
                lemma_listed_blocks_grow(entries@, show_all, i + 1, entries.len() as int);
                assert(entries@.take(entries.len() as int) =~= entries@);
                let prev = listed_entries(entries@.take(i as int), show_all);
                lemma_blocks_total_push(prev, (*e, e.name@));
                lemma_blocks_total_concat(head, prev.push((*e, e.name@)));
                lemma_blocks_total_concat(head, prev);
            }
            names.push(crate::text::owned(e.name.as_str()));
            sources.push(i + 2);
            total = total + e.blocks;
            proof {
                let prev = listed_entries(entries@.take(i as int), show_all);
                assert(head + prev.push((*e, e.name@)) =~= (head + prev).push((*e, e.name@)));
                items = items.push((*e, e.name@));
            }
        }
        i = i + 1;
    }
    assert(entries@.take(entries.len() as int) =~= entries@);
    assert(items == all_items);
    let ghost name_views = names@.map_values(|s: String| s@);
    assert(name_views =~= items.map_values(|p: (LongEntry, Seq<char>)| p.1));
    let order = listing_order(&names);
    let ghost o = order@.map_values(|k: usize| k as int);
    proof {
        lemma_is_the_listing_order(name_views, o);
    }
    let mut lines: Vec<String> = Vec::new();
    let mut head_line: Vec<char> = Vec::new();
    head_line.push('t');
    head_line.push('o');
    head_line.push('t');
    head_line.push('a');
    head_line.push('l');
    head_line.push(' ');
    let digits = decimal_chars(total / 2);
    append_chars(&mut head_line, &digits);
    assert(head_line@ =~= total_line(blocks_total(items)));
    lines.push(string_of(&head_line));
    let ghost body = o.map_values(|k: int| entry_line(items[k].0, items[k].1, append_types));
    assert(lines@.map_values(|s: String| s@) =~= seq![total_line(blocks_total(items))] + body.take(0));
    let mut k: usize = 0;
    while k < order.len()
        invariant
            items == all_items,
            names.len() == items.len(),
            sources.len() == items.len(),
            forall|m: int| 0 <= m < items.len() ==> (#[trigger] names@[m])@ == items[m].1,
            forall|m: int|
                0 <= m < items.len() ==> source_entry(*dot, *dotdot, entries@, #[trigger] sources@[m] as int)
                    == items[m].0,
            forall|m: int|
                0 <= m < items.len() ==> (#[trigger] sources@[m] == 0 ==> dot is Some) && (sources@[m] == 1
                    ==> dotdot is Some) && sources@[m] < entries.len() + 2,
            is_listing_order(name_views, o),
            name_views == names@.map_values(|s: String| s@),
            o == order@.map_values(|k: usize| k as int),
            body == o.map_values(|k: int| entry_line(items[k].0, items[k].1, append_types)),
            k <= order.len(),
            lines@.map_values(|s: String| s@) == seq![total_line(blocks_total(items))] + body.take(k as int),
        decreases order.len() - k,
    {
        let m = order[k];
        assert(o[k as int] == m as int);
        let s = sources[m];
        let line = if s == 0 {
            match dot {
                Some(d) => long_entry_line(d, names[m].as_str(), append_types),
                None => String::new(),
            }
        } else if s == 1 {
            match dotdot {
                Some(d) => long_entry_line(d, names[m].as_str(), append_types),
                None => String::new(),
            }
        } else {
            long_entry_line(&entries[s - 2], names[m].as_str(), append_types)
        };
        assert(line@ == body[k as int]);
        let ghost before = lines@;
        lines.push(line);
        assert(lines@.map_values(|s: String| s@) =~= before.map_values(|s: String| s@).push(line@));
        assert(body.take(k as int).push(body[k as int]) =~= body.take(k + 1));
        assert(seq![total_line(blocks_total(items))] + body.take(k + 1) =~= (seq![total_line(blocks_total(items))] + body.take(k as int)).push(body[k as int]));
        k = k + 1;
    }
    assert(body.take(order.len() as int) =~= body);
    lines
}

} // verus!

verus! {

/// The number of names shown before the entries: `.` and `..` with `-a`.
pub open spec fn dot_count(show_all: bool) -> int {
    if show_all {
        2
    } else {
        0
    }
}

/// Whether `name` is what the short listing shows for some listed entry.
pub open spec fn shows_a_listed_entry(
    entries: Seq<ShortEntry>,
    show_all: bool,
    append_types: bool,
    name: Seq<char>,
) -> bool {
    exists|i: int|
        0 <= i < entries.len() && is_listed(#[trigger] entries[i].name@, show_all) && name == short_name(
            entries[i],
            append_types,
        )
}

/// The short listing shows `.` and `..` first with `-a`, and otherwise
/// only names of listed entries: every name after them is the shown name
/// of a listed entry, and every listed entry is shown.
pub proof fn lemma_short_names_shown(entries: Seq<ShortEntry>, show_all: bool, append_types: bool)
    ensures
        short_names(entries, show_all, append_types).len() >= dot_count(show_all),
        show_all ==> short_names(entries, show_all, append_types)[0] == seq!['.'],
        show_all ==> short_names(entries, show_all, append_types)[1] == seq!['.', '.'],
        forall|k: int|
            dot_count(show_all) <= k < short_names(entries, show_all, append_types).len()
                ==> shows_a_listed_entry(
                entries,
                show_all,
                append_types,
                #[trigger] short_names(entries, show_all, append_types)[k],
            ),
        forall|i: int|
            0 <= i < entries.len() && is_listed(#[trigger] entries[i].name@, show_all) ==> exists|k: int|
                dot_count(show_all) <= k < short_names(entries, show_all, append_types).len()
                    && short_names(entries, show_all, append_types)[k] == short_name(entries[i], append_types),
    decreases entries.len(),
{
    let names = short_names(entries, show_all, append_types);
    if entries.len() > 0 {
        let prev_entries = entries.drop_last();
        lemma_short_names_shown(prev_entries, show_all, append_types);
        let prev = short_names(prev_entries, show_all, append_types);
        let last = entries.last();
        if show_all {
            assert(names[0] == prev[0] && names[1] == prev[1]);
        }
        assert forall|k: int| dot_count(show_all) <= k < names.len() implies shows_a_listed_entry(
            entries,
            show_all,
            append_types,
            #[trigger] names[k],
        ) by {
            if k < prev.len() {
                assert(names[k] == prev[k]);
                assert(shows_a_listed_entry(prev_entries, show_all, append_types, prev[k]));
                let i = choose|i: int|
                    0 <= i < prev_entries.len() && is_listed(#[trigger] prev_entries[i].name@, show_all) && prev[k]
                        == short_name(prev_entries[i], append_types);
                assert(entries[i] == prev_entries[i]);
            } else {
                assert(is_listed(last.name@, show_all));
                assert(names == prev.push(short_name(last, append_types)));
                assert(names[k] == short_name(last, append_types));
                assert(entries[entries.len() - 1] == last);
                assert(is_listed(entries[entries.len() - 1].name@, show_all));
            }
        }
        assert forall|i: int|
            0 <= i < entries.len() && is_listed(#[trigger] entries[i].name@, show_all) implies exists|k: int|
                dot_count(show_all) <= k < names.len() && names[k] == short_name(entries[i], append_types) by {
            if i < entries.len() - 1 {
                assert(entries[i] == prev_entries[i]);
                assert(is_listed(prev_entries[i].name@, show_all));
                let k = choose|k: int|
                    dot_count(show_all) <= k < prev.len() && prev[k] == short_name(prev_entries[i], append_types);
                assert(names[k] == prev[k]);
            } else {
                assert(names[prev.len() as int] == short_name(last, append_types));
            }
        }
    } else {
        assert(names.len() == dot_count(show_all));
    }
}

} // verus!

verus! {

/// The size column of a long-listing line: for a character or a block
/// device (type letter `c` or `b`) the major and the minor number of its
/// device ID, as `major, minor`; for any other file its size in bytes.
pub proof fn lemma_size_column(e: LongEntry)
    ensures
        type_letter(e.mode) == 'c' || type_letter(e.mode) == 'b' ==> size_text(e) == decimal(
            crate::system::major_of(e.device) as nat,
        ) + seq![',', ' '] + decimal(crate::system::minor_of(e.device) as nat),
        !(type_letter(e.mode) == 'c' || type_letter(e.mode) == 'b') ==> size_text(e) == decimal(
            e.size as nat,
        ),
{
}

/// The long-listing line of a character or block device does not depend
/// on its size, and that of any other file does not depend on its device
/// ID.
pub proof fn lemma_size_or_device_shown(e: LongEntry, size: u64, device: u64, name: Seq<char>, append_types: bool)
    ensures
        type_letter(e.mode) == 'c' || type_letter(e.mode) == 'b' ==> entry_line(
            LongEntry { size, ..e },
            name,
            append_types,
        ) == entry_line(e, name, append_types),
        !(type_letter(e.mode) == 'c' || type_letter(e.mode) == 'b') ==> entry_line(
            LongEntry { device, ..e },
            name,
            append_types,
        ) == entry_line(e, name, append_types),
{
    let e1 = LongEntry { size, ..e };
    let e2 = LongEntry { device, ..e };
    assert(size_text(e1) == size_text(e) || !(type_letter(e.mode) == 'c' || type_letter(e.mode) == 'b'));
    assert(size_text(e2) == size_text(e) || (type_letter(e.mode) == 'c' || type_letter(e.mode) == 'b'));
    assert(long_display_name(e1, name, append_types) == long_display_name(e, name, append_types));
    assert(long_display_name(e2, name, append_types) == long_display_name(e, name, append_types));
    assert(link_text(e1, append_types) == link_text(e, append_types));
    assert(link_text(e2, append_types) == link_text(e, append_types));
}

} // verus!
