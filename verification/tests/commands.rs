use zero_shell::commands::cat::{cat_missing_message, cat_plan, CatStep};
use zero_shell::commands::cd::{cd_target, home_or_root_dir};
use zero_shell::commands::clear::clear_text;
use zero_shell::commands::cp::{cp_action, cp_missing_target_message, cp_plan, CpAction};
use zero_shell::commands::exit::{exit_code, parse_i32};
use zero_shell::commands::mkdir::mkdir_check;
use zero_shell::commands::rm::{rm_action, rm_plan, RmAction};
use zero_shell::commands::{dispatch, CommandKind};

fn strs(v: &[&str]) -> Vec<String> {
    v.iter().map(|s| s.to_string()).collect()
}

#[test]
fn dispatch_known_commands() {
    let names = [
        ("exit", CommandKind::Exit),
        ("echo", CommandKind::Echo),
        ("cd", CommandKind::Cd),
        ("pwd", CommandKind::Pwd),
        ("ls", CommandKind::Ls),
        ("cat", CommandKind::Cat),
        ("cp", CommandKind::Cp),
        ("mv", CommandKind::Mv),
        ("mkdir", CommandKind::Mkdir),
    ];
    for (name, kind) in names {
        let inv = dispatch(name, &strs(&["a", "b"])).ok().unwrap();
        assert_eq!(inv.kind, kind);
        assert_eq!(inv.args, strs(&["a", "b"]));
    }
}

#[test]
fn dispatch_unknown_command() {
    let e = dispatch("rm", &strs(&["x"])).err().unwrap();
    assert_eq!(e, "Command 'rm' not found");
    let e = dispatch("LS", &[]).err().unwrap();
    assert_eq!(e, "Command 'LS' not found");
}

#[test]
fn cd_targets() {
    let t = cd_target(&[], Some("/home/u"), None, "/cwd").ok().unwrap();
    assert_eq!(t.path, "/home/u");
    assert!(!t.print_path);
    let t = cd_target(&strs(&["--"]), None, None, "/cwd").ok().unwrap();
    assert_eq!(t.path, "/");
    let t = cd_target(&strs(&["~"]), Some("/home/u"), None, "/cwd").ok().unwrap();
    assert_eq!(t.path, "/home/u");
    let t = cd_target(&strs(&["~/src"]), Some("/home/u"), None, "/cwd").ok().unwrap();
    assert_eq!(t.path, "/home/u/src");
    let t = cd_target(&strs(&["~x"]), None, None, "/cwd").ok().unwrap();
    assert_eq!(t.path, "/x");
    let t = cd_target(&strs(&["-"]), None, Some("/old"), "/cwd").ok().unwrap();
    assert_eq!(t.path, "/old");
    assert!(t.print_path);
    let t = cd_target(&strs(&["dir"]), None, None, "/cwd").ok().unwrap();
    assert_eq!(t.path, "dir");
    assert_eq!(t.oldpwd_after, "/cwd");
}

#[test]
fn cd_dash_goes_back() {
    let first = cd_target(&strs(&["dir"]), Some("/home/u"), None, "/start").ok().unwrap();
    assert_eq!(first.path, "dir");
    assert!(!first.print_path);
    let back = cd_target(&strs(&["-"]), Some("/home/u"), Some(first.oldpwd_after.as_str()), "/start/dir")
        .ok()
        .unwrap();
    assert_eq!(back.path, "/start");
    assert!(back.print_path);
    assert_eq!(back.oldpwd_after, "/start/dir");
}

#[test]
fn cd_errors() {
    assert_eq!(cd_target(&strs(&["a", "b"]), None, None, "/cwd").err().unwrap(), "cd: too many arguments one is enogh");
    assert_eq!(cd_target(&strs(&["-"]), None, None, "/cwd").err().unwrap(), "cd: OLDPWD not set");
}

#[test]
fn home_or_root() {
    assert_eq!(home_or_root_dir(None), "/");
    assert_eq!(home_or_root_dir(Some("/h")), "/h");
}

#[test]
fn exit_codes() {
    assert_eq!(exit_code(&[]), 0);
    assert_eq!(exit_code(&strs(&["3"])), 3);
    assert_eq!(exit_code(&strs(&["-7", "9"])), -7);
    assert_eq!(exit_code(&strs(&["abc"])), 0);
    assert_eq!(exit_code(&strs(&["99999999999"])), 0);
}

#[test]
fn i32_parsing_matches_std() {
    let cases = [
        "0", "42", "+42", "-42", "-0", "007", "2147483647", "2147483648", "-2147483648",
        "-2147483649", "", "+", "-", "1a", " 1", "1 ", "--1", "+-1", "99999999999999999999",
    ];
    for c in cases {
        assert_eq!(parse_i32(c), c.parse::<i32>().ok(), "{}", c);
    }
}

#[test]
fn rm_plans() {
    assert_eq!(rm_plan(&[]).err().unwrap(), "rm: missing operand");
    assert_eq!(rm_plan(&strs(&["-r", "-r"])).err().unwrap(), "rm: missing operand");
    let p = rm_plan(&strs(&["a", "-r"])).ok().unwrap();
    assert!(p.recursive);
    assert_eq!(p.targets, strs(&["a", "-r"]));
    let p = rm_plan(&strs(&["a"])).ok().unwrap();
    assert!(!p.recursive);
}

#[test]
fn rm_actions() {
    match rm_action("x", false, false, false) {
        RmAction::Missing(m) => assert_eq!(m, "rm: cannot remove 'x': No such file or directory"),
        _ => panic!("expected a missing path"),
    }
    match rm_action("d", true, true, false) {
        RmAction::IsDirectory(m) => assert_eq!(m, "rm: cannot remove 'd': Is a directory"),
        _ => panic!("expected a directory"),
    }
    assert!(matches!(rm_action("d", true, true, true), RmAction::RemoveTree));
    assert!(matches!(rm_action("f", true, false, true), RmAction::RemoveFile));
}

#[test]
fn mkdir_operands() {
    assert_eq!(mkdir_check(&[]).err().unwrap(), "mkdir: missing operand");
    assert!(mkdir_check(&strs(&["d"])).is_ok());
}

#[test]
fn clear_sequence() {
    assert_eq!(clear_text(&[]).ok().unwrap(), "\x1B[2J\x1B[H");
    assert_eq!(
        clear_text(&strs(&["-x"])).err().unwrap(),
        "clear: the command clear doesn't support options one is enough"
    );
}

#[test]
fn cat_steps() {
    let steps = cat_plan(&[]);
    assert_eq!(steps.len(), 1);
    assert!(matches!(steps[0], CatStep::Stdin));
    let steps = cat_plan(&strs(&["a", "-", "--"]));
    assert_eq!(steps.len(), 3);
    assert!(matches!(&steps[0], CatStep::File(f) if f == "a"));
    assert!(matches!(steps[1], CatStep::Stdin));
    assert!(matches!(&steps[2], CatStep::Notice(m) if m == "cat: --: Not valid flag"));
    assert_eq!(cat_missing_message("x"), "cat: x: No such file");
}

#[test]
fn cp_plans() {
    assert_eq!(cp_plan(&strs(&["a"])).err().unwrap(), "cp: missing file operand");
    let p = cp_plan(&strs(&["a", "b", "dir"])).ok().unwrap();
    assert_eq!(p.sources, strs(&["a", "b"]));
    assert_eq!(p.dest, "dir");
    assert_eq!(cp_missing_target_message("d"), "cp: target 'd' does not exist");
}

fn copy_to(src: &str, dest: &str, dest_is_dir: bool) -> String {
    match cp_action(src, true, dest, dest_is_dir) {
        CpAction::Copy(t) => t,
        CpAction::Skip(m) => m,
    }
}

#[test]
fn cp_targets() {
    assert_eq!(copy_to("a.txt", "dir", true), "dir/a.txt");
    assert_eq!(copy_to("/x/y/a.txt", "dir/", true), "dir/a.txt");
    assert_eq!(copy_to("src/", "dir", true), "dir/src");
    assert_eq!(copy_to("src/.", "dir", true), "dir/src");
    assert_eq!(copy_to("a.txt", "b.txt", false), "b.txt");
    assert_eq!(copy_to("..", "dir", true), "cp: invalid source file '..'");
    assert_eq!(copy_to("/", "dir", true), "cp: invalid source file '/'");
    match cp_action("gone", false, "dir", true) {
        CpAction::Skip(m) => assert_eq!(m, "cp: cannot stat 'gone': No such file or directory"),
        _ => panic!("expected a skip"),
    }
}

#[test]
fn cp_file_names_match_std() {
    for p in ["a", "a/b", "a/b/", "a/./", "./a", ".", "..", "a/..", "/", "", "a//b//", "./", "a/.b"] {
        let expected = std::path::Path::new(p).file_name().map(|n| format!("dir/{}", n.to_string_lossy()));
        let got = match cp_action(p, true, "dir", true) {
            CpAction::Copy(t) => Some(t),
            CpAction::Skip(_) => None,
        };
        assert_eq!(got, expected, "{}", p);
    }
}
