use chrono::Datelike;
use std::time::SystemTime;
use zero_shell::commands::ls::args::{parse_ls_args, paths_to_list};
use zero_shell::commands::ls::entry::{
    account_name, file_line, format_mtime, lists_contents, missing_path_message, mtime_pattern,
    mtime_text, LookupOutput,
};
use zero_shell::commands::ls::layout::column_layout;
use zero_shell::commands::ls::listing::{
    entry_is_listed, long_entry_line, long_entry_of, long_listing, short_listing, terminal_width,
    width_or_default, FileFacts, LongEntry, ShortEntry,
};
use zero_shell::commands::ls::mode::{
    entry_type_suffix, file_type_char, format_mode, mode_type_suffix,
    quote_filename, suffix_needs_mode, FileKind,
};
use zero_shell::commands::ls::order::listing_order;
use zero_shell::paths::{expand_path, expand_path_with};

fn strs(v: &[&str]) -> Vec<String> {
    v.iter().map(|s| s.to_string()).collect()
}

#[test]
fn ls_options_combine() {
    let o = parse_ls_args(&strs(&["-la", "x", "-F", "-", "y"])).ok().unwrap();
    assert!(o.show_all && o.long_format && o.append_types);
    assert_eq!(o.paths, strs(&["x", "-", "y"]));
}

#[test]
fn ls_no_options() {
    let o = parse_ls_args(&strs(&["dir"])).ok().unwrap();
    assert!(!o.show_all && !o.long_format && !o.append_types);
    assert_eq!(o.paths, strs(&["dir"]));
}

#[test]
fn ls_invalid_option() {
    let e = parse_ls_args(&strs(&["-a", "-lz", "-q"])).err().unwrap();
    assert_eq!(e, "ls: invalid option -- 'z'");
    let e = parse_ls_args(&strs(&["--"])).err().unwrap();
    assert_eq!(e, "ls: invalid option -- '-'");
}

#[test]
fn quoting_names() {
    assert_eq!(quote_filename("plain.txt"), "plain.txt");
    assert_eq!(quote_filename("my file"), "'my file'");
    assert_eq!(quote_filename("a$b"), "'a$b'");
    assert_eq!(quote_filename(""), "");
}

#[test]
fn type_letters() {
    assert_eq!(file_type_char(0o040755), 'd');
    assert_eq!(file_type_char(0o100644), '-');
    assert_eq!(file_type_char(0o120777), 'l');
    assert_eq!(file_type_char(0o020620), 'c');
    assert_eq!(file_type_char(0o060660), 'b');
    assert_eq!(file_type_char(0o010644), 'p');
    assert_eq!(file_type_char(0o140755), 's');
    assert_eq!(file_type_char(0o000644), '?');
}

#[test]
fn permission_strings() {
    assert_eq!(format_mode(0o100755, false), "rwxr-xr-x");
    assert_eq!(format_mode(0o100644, true), "rw-r--r--+");
    assert_eq!(format_mode(0o104755, false), "rwsr-xr-x");
    assert_eq!(format_mode(0o102644, false), "rw-r-Sr--");
    assert_eq!(format_mode(0o041777, false), "rwxrwxrwt");
    assert_eq!(format_mode(0o041776, false), "rwxrwxrwT");
    assert_eq!(format_mode(0, false), "---------");
}

#[test]
fn entry_suffixes() {
    assert_eq!(entry_type_suffix(FileKind::Directory, 0), Some('/'));
    assert_eq!(entry_type_suffix(FileKind::Symlink, 0), Some('@'));
    assert_eq!(entry_type_suffix(FileKind::Fifo, 0), Some('|'));
    assert_eq!(entry_type_suffix(FileKind::Socket, 0), Some('='));
    assert_eq!(entry_type_suffix(FileKind::Regular, 0o100744), Some('*'));
    assert_eq!(entry_type_suffix(FileKind::Regular, 0o100644), None);
    assert_eq!(entry_type_suffix(FileKind::CharDevice, 0o020666), None);
    assert!(suffix_needs_mode(FileKind::Regular));
    assert!(!suffix_needs_mode(FileKind::Directory));
}

#[test]
fn mode_suffixes() {
    assert_eq!(mode_type_suffix(Some(0o040755)), Some('/'));
    assert_eq!(mode_type_suffix(Some(0o010644)), Some('|'));
    assert_eq!(mode_type_suffix(Some(0o140755)), Some('='));
    assert_eq!(mode_type_suffix(Some(0o100701)), Some('*'));
    assert_eq!(mode_type_suffix(Some(0o100600)), None);
    assert_eq!(mode_type_suffix(Some(0o120777)), Some('@'));
    assert_eq!(mode_type_suffix(None), None);
}

#[test]
fn hidden_entries() {
    assert!(entry_is_listed("a", false));
    assert!(!entry_is_listed(".a", false));
    assert!(entry_is_listed(".a", true));
}

#[test]
fn order_puts_dots_first_then_ignores_case_and_leading_dots() {
    let names = strs(&["b", "..", ".c", "A", "."]);
    let order = listing_order(&names);
    let sorted: Vec<&str> = order.iter().map(|&k| names[k].as_str()).collect();
    assert_eq!(sorted, vec![".", "..", "A", "b", ".c"]);
}

#[test]
fn order_lowercases_keys() {
    let names = strs(&["B", "a"]);
    let order = listing_order(&names);
    assert_eq!(order, vec![1, 0]);
}

#[test]
fn order_keeps_equal_keys_in_place() {
    let names = strs(&["x", ".x", "X"]);
    let order = listing_order(&names);
    assert_eq!(order, vec![0, 1, 2]);
}

fn short(name: &str, kind: FileKind, mode: u32) -> ShortEntry {
    ShortEntry { name: name.to_string(), kind, mode }
}

#[test]
fn short_listing_in_columns() {
    let entries = vec![
        short("beta", FileKind::Regular, 0o100644),
        short("alpha", FileKind::Directory, 0o040755),
        short(".hidden", FileKind::Regular, 0o100644),
        short("gamma", FileKind::Regular, 0o100755),
    ];
    let lines = short_listing(&entries, false, false, 80);
    assert_eq!(lines, strs(&["alpha  beta   gamma  "]));
    // the executable's suffix makes its name need quotes, and the quote sorts first
    let lines = short_listing(&entries, false, true, 16);
    assert_eq!(lines, strs(&["'gamma*'  ", "alpha/    ", "beta      "]));
    let lines = short_listing(&entries, false, true, 20);
    assert_eq!(lines, strs(&["'gamma*'  beta      ", "alpha/    "]));
}

#[test]
fn short_listing_all() {
    let entries = vec![short("b", FileKind::Regular, 0o100644), short(".a", FileKind::Regular, 0o100644)];
    let lines = short_listing(&entries, true, false, 5);
    assert_eq!(lines, strs(&[".   ", "..  ", ".a  ", "b   "]));
}

#[test]
fn short_listing_quotes() {
    let entries = vec![short("a b", FileKind::Regular, 0o100644)];
    let lines = short_listing(&entries, false, false, 80);
    assert_eq!(lines, strs(&["'a b'  "]));
}

#[test]
fn short_listing_empty() {
    let lines = short_listing(&Vec::new(), false, false, 80);
    assert!(lines.is_empty());
}

#[test]
fn layout_uses_byte_length() {
    let names = strs(&["\u{e9}", "ab"]);
    // the widest name has 2 bytes, so a column is 4 wide; padding counts characters
    let lines = column_layout(&names, 80);
    assert_eq!(lines, strs(&["\u{e9}   ab  "]));
}

#[test]
fn layout_narrow_terminal() {
    let names = strs(&["aaaa", "b", "c"]);
    let lines = column_layout(&names, 3);
    assert_eq!(lines, strs(&["aaaa  ", "b     ", "c     "]));
}

#[test]
fn terminal_width_is_positive() {
    assert!(terminal_width() >= 1);
}

#[test]
fn ls_without_paths_lists_working_directory() {
    let given = parse_ls_args(&strs(&["-la"])).ok().unwrap();
    let with_cwd = parse_ls_args(&strs(&["-la", "/work"])).ok().unwrap();
    assert_eq!((given.show_all, given.long_format), (with_cwd.show_all, with_cwd.long_format));
    let listed = paths_to_list(given.paths, Ok("/work".to_string())).unwrap();
    assert_eq!(listed, strs(&["/work"]));
    assert_eq!(paths_to_list(with_cwd.paths, Ok("/elsewhere".to_string())).unwrap(), strs(&["/work"]));
    assert_eq!(paths_to_list(Vec::new(), Err("no cwd".to_string())), Err("no cwd".to_string()));
    assert_eq!(paths_to_list(strs(&["a"]), Err("no cwd".to_string())).unwrap(), strs(&["a"]));
}

#[test]
fn width_from_terminal_or_default() {
    assert_eq!(width_or_default(Some((132, 40))), 132);
    assert_eq!(width_or_default(None), 80);
}

fn long(name: &str, mode: u32) -> LongEntry {
    LongEntry {
        name: name.to_string(),
        mode,
        permissions: "rw-r--r--".to_string(),
        links: 1,
        owner: "root".to_string(),
        group: "staff".to_string(),
        size: 1234,
        device: 0,
        blocks: 8,
        modified: "Jan  1 10:00".to_string(),
        path_mode: Some(mode),
        link_target: None,
        target_mode: None,
    }
}

#[test]
fn long_line_regular() {
    let e = long("notes.txt", 0o100644);
    assert_eq!(
        long_entry_line(&e, "notes.txt", false),
        "-rw-r--r--   1     root    staff     1234 Jan  1 10:00 notes.txt"
    );
}

#[test]
fn long_line_executable_with_suffix() {
    let mut e = long("run me", 0o100755);
    e.permissions = "rwxr-xr-x".to_string();
    assert_eq!(
        long_entry_line(&e, "run me", true),
        "-rwxr-xr-x   1     root    staff     1234 Jan  1 10:00 'run me'*"
    );
}

#[test]
fn long_line_device_numbers() {
    let mut e = long("tty0", 0o020620);
    e.device = (4 << 8) | 5 | (0x123 << 12) << 8;
    let line = long_entry_line(&e, "tty0", false);
    let major = (((e.device & 0xfff00) >> 8) | ((e.device & 0xfffff00000000000) >> 32)) as u32;
    let minor = ((e.device & 0xff) | ((e.device & 0xffffff00000) >> 12)) as u32;
    assert_eq!(major, 4);
    assert_eq!(
        line,
        format!("crw-r--r--   1     root    staff {:>8} Jan  1 10:00 tty0", format!("{}, {}", major, minor))
    );
    assert_eq!(line, "crw-r--r--   1     root    staff 4, 74501 Jan  1 10:00 tty0");
}

#[test]
fn long_line_symlink() {
    let mut e = long("link", 0o120777);
    e.link_target = Some("target".to_string());
    e.target_mode = Some(0o040755);
    e.path_mode = Some(0o120777);
    assert_eq!(
        long_entry_line(&e, "link", true),
        "lrw-r--r--   1     root    staff     1234 Jan  1 10:00 link -> target/"
    );
    assert_eq!(
        long_entry_line(&e, "link", false),
        "lrw-r--r--   1     root    staff     1234 Jan  1 10:00 link -> target"
    );
}

#[test]
fn long_listing_total_and_order() {
    let dot = Some(long("whatever", 0o040755));
    let dotdot = None;
    let entries = vec![long("b", 0o100644), long(".h", 0o100644), long("a", 0o100644)];
    let lines = long_listing(&dot, &dotdot, &entries, false, false);
    assert_eq!(lines.len(), 3);
    assert_eq!(lines[0], "total 8");
    assert!(lines[1].ends_with(" a"));
    assert!(lines[2].ends_with(" b"));
    let lines = long_listing(&dot, &dotdot, &entries, true, false);
    assert_eq!(lines.len(), 5);
    assert_eq!(lines[0], "total 16");
    assert!(lines[1].ends_with(" ."));
    assert!(lines[2].ends_with(" a"));
    assert!(lines[3].ends_with(" b"));
    assert!(lines[4].ends_with(" .h"));
}

#[test]
fn long_listing_odd_blocks_round_down() {
    let mut e = long("a", 0o100644);
    e.blocks = 3;
    let lines = long_listing(&None, &None, &vec![e], false, false);
    assert_eq!(lines[0], "total 1");
}

#[test]
fn contents_or_entry() {
    assert!(lists_contents(true, FileKind::Directory, None));
    assert!(!lists_contents(true, FileKind::Symlink, Some(FileKind::Directory)));
    assert!(lists_contents(false, FileKind::Symlink, Some(FileKind::Directory)));
    assert!(!lists_contents(false, FileKind::Symlink, None));
    assert!(!lists_contents(false, FileKind::Regular, None));
}

#[test]
fn messages_and_file_lines() {
    assert_eq!(missing_path_message("x"), "ls: cannot access 'x': No such file or directory");
    assert_eq!(file_line("a b", false, Some(0o100755)), "a b");
    assert_eq!(file_line("run", true, Some(0o100755)), "run*");
    assert_eq!(file_line("run", true, None), "run");
    assert_eq!(file_line("lnk", true, Some(0o120777)), "lnk@");
    assert_eq!(file_line("lnk", false, Some(0o120777)), "lnk");
}

#[test]
fn account_names() {
    let ok = Some(LookupOutput { success: true, stdout: "root:x:0:0:root:/root:/bin/bash\n".to_string() });
    assert_eq!(account_name(&ok, 0), "root");
    let failed = Some(LookupOutput { success: false, stdout: String::new() });
    assert_eq!(account_name(&failed, 1001), "1001");
    assert_eq!(account_name(&None, 5), "unknown");
    let no_colon = Some(LookupOutput { success: true, stdout: "abc".to_string() });
    assert_eq!(account_name(&no_colon, 5), "abc");
}

#[test]
fn mtime_patterns() {
    assert_eq!(mtime_pattern(2024, 2024), "%b %e %H:%M");
    assert_eq!(mtime_pattern(2020, 2024), "%b %e  %Y");
}

fn unix_now() -> (i64, u32) {
    let d = SystemTime::now().duration_since(SystemTime::UNIX_EPOCH).unwrap();
    (d.as_secs() as i64, d.subsec_nanos())
}

#[test]
fn mtime_of_now_shows_hour() {
    let (secs, nanos) = unix_now();
    let text = format_mtime(secs, nanos, 0, secs, nanos, 0).unwrap();
    assert_eq!(text.len(), 12);
    assert_eq!(&text[9..10], ":");
}

#[test]
fn mtime_of_old_time_shows_year() {
    let (now, nanos) = unix_now();
    let text = format_mtime(86400 * 400, 0, 0, now, nanos, 0).unwrap();
    assert!(text.ends_with("1971"));
}

#[test]
fn mtime_within_chronos_years() {
    let (now, nanos) = unix_now();
    assert!(format_mtime(8210266876799, 999_999_999, 0, now, nanos, 0).is_some());
    assert!(format_mtime(-8334601228800, 0, 0, now, nanos, 0).is_some());
    assert_eq!(format_mtime(8210266876800, 0, 0, now, nanos, 0), None);
    assert_eq!(format_mtime(-8334601228801, 0, 0, now, nanos, 0), None);
    assert_eq!(format_mtime(0, 2_000_000_000, 0, now, nanos, 0), None);
    assert_eq!(format_mtime(0, 0, 0, i64::MAX, 0, 0), None);
    assert_eq!(format_mtime(0, 0, 86400, now, nanos, 0), None);
    assert_eq!(format_mtime(0, 0, 0, now, nanos, -86400), None);
}

#[test]
fn chronos_first_and_last_instants() {
    let first = chrono::DateTime::from_timestamp(-8334601228800, 0).unwrap();
    assert_eq!((first.year(), first.month(), first.day()), (-262143, 1, 1));
    assert!(chrono::DateTime::from_timestamp(-8334601228801, 0).is_none());
    let last = chrono::DateTime::from_timestamp(8210266876799, 0).unwrap();
    assert_eq!((last.year(), last.month(), last.day()), (262142, 12, 31));
    assert!(chrono::DateTime::from_timestamp(8210266876800, 0).is_none());
}

#[test]
fn mtime_at_each_offset() {
    // 2024-03-05 14:07:30 UTC, listed on 2024-06-01.
    let t = 1709647650;
    let now = 1717200000;
    assert_eq!(format_mtime(t, 0, 0, now, 0, 0), Some("Mar  5 14:07".to_string()));
    assert_eq!(format_mtime(t, 0, 3600, now, 0, 7200), Some("Mar  5 15:07".to_string()));
    // 2023-12-31 23:30 UTC is in the new year one hour east, and so in the
    // current year when listed in 2024.
    let eve = 1704065400;
    assert_eq!(format_mtime(eve, 0, 3600, now, 0, 3600), Some("Jan  1 00:30".to_string()));
    assert_eq!(format_mtime(eve, 0, 0, now, 0, 0), Some("Dec 31  2023".to_string()));
}

#[test]
fn long_entry_from_facts() {
    let (now, nanos) = unix_now();
    let facts = FileFacts {
        name: "notes".to_string(),
        mode: 0o100640,
        has_xattr: true,
        links: 2,
        uid: 1000,
        gid: 50,
        size: 77,
        device: 0,
        blocks: 8,
        mtime_secs: 86400 * 400,
        mtime_nanos: 0,
        mtime_offset: 0,
        path_mode: Some(0o100640),
        link_target: None,
        target_mode: Some(0o100640),
    };
    let owner = Some(LookupOutput { success: true, stdout: "ann:x:1000:1000::/home/ann:/bin/sh\n".to_string() });
    let group = Some(LookupOutput { success: false, stdout: String::new() });
    let e = long_entry_of(facts, &owner, &group, now, nanos, 0).unwrap();
    assert_eq!(e.name, "notes");
    assert_eq!(e.permissions, "rw-r-----+");
    assert_eq!(e.owner, "ann");
    assert_eq!(e.group, "50");
    assert_eq!((e.links, e.size, e.blocks), (2, 77, 8));
    assert!(e.modified.ends_with("1971"));
    assert_eq!(e.target_mode, Some(0o100640));
}

#[test]
fn tilde_paths() {
    assert_eq!(expand_path_with("~", Some("/home/u")), "/home/u");
    assert_eq!(expand_path_with("~/x", Some("/home/u")), "/home/u/x");
    assert_eq!(expand_path_with("~/x", Some("/home/u/")), "/home/u/x");
    assert_eq!(expand_path_with("~//etc", Some("/home/u")), "/etc");
    assert_eq!(expand_path_with("~/", Some("/home/u")), "/home/u/");
    assert_eq!(expand_path_with("~x", Some("/home/u")), "~x");
    assert_eq!(expand_path_with("~/x", None), "~/x");
    assert_eq!(expand_path("plain/path"), "plain/path");
}

#[test]
fn tilde_is_the_home_directory() {
    if let Some(home) = dirs::home_dir() {
        assert_eq!(expand_path("~"), home.to_string_lossy());
    }
}

#[test]
fn shown_names_read_back_in_the_shell() {
    for name in ["plain", "a b", "x\"y", "tab\there", "(paren)", "semi;colon"] {
        let shown = quote_filename(name);
        let (cmd, args) = zero_shell::parser::parse_line(&shown, Some("/home/u"));
        assert_eq!(cmd, name);
        assert!(args.is_empty());
    }
}
