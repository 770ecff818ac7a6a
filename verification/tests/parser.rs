use zero_shell::parser::{is_command_complete, join_continuation, parse_line};
use zero_shell::text::{trim, trim_end};

fn words(line: &str, home: Option<&str>) -> (String, Vec<String>) {
    parse_line(line, home)
}

fn strs(v: &[&str]) -> Vec<String> {
    v.iter().map(|s| s.to_string()).collect()
}

#[test]
fn splits_on_blanks() {
    let (cmd, args) = words("ls  -la\t/tmp", None);
    assert_eq!(cmd, "ls");
    assert_eq!(args, strs(&["-la", "/tmp"]));
}

#[test]
fn empty_line_has_no_command() {
    let (cmd, args) = words("   \t ", None);
    assert_eq!(cmd, "");
    assert!(args.is_empty());
}

#[test]
fn double_quotes_keep_blanks() {
    let (cmd, args) = words("echo \"a b\"  c", None);
    assert_eq!(cmd, "echo");
    assert_eq!(args, strs(&["a b", "c"]));
}

#[test]
fn single_quotes_keep_double_quotes() {
    let (_, args) = words("echo 'say \"hi\"'", None);
    assert_eq!(args, strs(&["say \"hi\""]));
}

#[test]
fn quotes_join_with_text() {
    let (_, args) = words("echo ab\"c d\"e", None);
    assert_eq!(args, strs(&["abc de"]));
}

#[test]
fn escapes_inside_quotes() {
    let (_, args) = words("echo \"a\\tb\\nc\\\\d\\\"e\"", None);
    assert_eq!(args, strs(&["a\tb\nc\\d\"e"]));
}

#[test]
fn unknown_escape_inside_quotes_keeps_next_char() {
    let (_, args) = words("echo \"a\\qb\"", None);
    assert_eq!(args, strs(&["aqb"]));
}

#[test]
fn single_quote_escape_in_single_quotes() {
    let (_, args) = words("echo 'it\\'s'", None);
    assert_eq!(args, strs(&["it's"]));
}

#[test]
fn backslash_outside_quotes_escapes_blank() {
    let (_, args) = words("cat my\\ file", None);
    assert_eq!(args, strs(&["my file"]));
}

#[test]
fn trailing_backslash_stays() {
    let (_, args) = words("echo a\\", None);
    assert_eq!(args, strs(&["a\\"]));
}

#[test]
fn backslash_at_end_inside_quotes_stays() {
    let (_, args) = words("echo \"a\\", None);
    assert_eq!(args, strs(&["a\\"]));
}

#[test]
fn comment_ends_line() {
    let (cmd, args) = words("ls -l # list it", None);
    assert_eq!(cmd, "ls");
    assert_eq!(args, strs(&["-l"]));
}

#[test]
fn hash_inside_word_is_kept() {
    let (_, args) = words("echo a#b \"#c\"", None);
    assert_eq!(args, strs(&["a#b", "#c"]));
}

#[test]
fn whole_line_comment() {
    let (cmd, args) = words("# nothing", None);
    assert_eq!(cmd, "");
    assert!(args.is_empty());
}

#[test]
fn tilde_expands_at_word_start() {
    let (_, args) = words("cd ~/docs", Some("/home/me"));
    assert_eq!(args, strs(&["/home/me/docs"]));
}

#[test]
fn tilde_without_home_stays() {
    let (_, args) = words("cd ~", None);
    assert_eq!(args, strs(&["~"]));
}

#[test]
fn tilde_inside_word_is_dropped() {
    let (_, args) = words("echo a~b", Some("/home/me"));
    assert_eq!(args, strs(&["ab"]));
}

#[test]
fn complete_lines() {
    assert!(is_command_complete("ls -l"));
    assert!(is_command_complete("echo \"a 'b\""));
    assert!(is_command_complete("echo a\\\\"));
    assert!(is_command_complete(""));
}

#[test]
fn incomplete_lines() {
    assert!(!is_command_complete("echo \"abc"));
    assert!(!is_command_complete("echo 'abc"));
    assert!(!is_command_complete("echo abc\\"));
    assert!(!is_command_complete("echo a\\\\\\"));
}

#[test]
fn escaped_quote_does_not_open() {
    assert!(is_command_complete("echo \\\"x"));
}

#[test]
fn continuation_joins_with_newline() {
    let joined = join_continuation("echo \"a", "b\"  \n");
    assert_eq!(joined, "echo \"a\nb\"");
    assert!(is_command_complete(&joined));
    let (_, args) = words(&joined, None);
    assert_eq!(args, strs(&["a\nb"]));
}

#[test]
fn trimming() {
    assert_eq!(trim("  \t ls -l \n"), "ls -l");
    assert_eq!(trim_end("  ab \u{3000}"), "  ab");
    assert_eq!(trim("\u{a0}x\u{2028}"), "x");
    assert_eq!(trim("   "), "");
}

#[test]
fn plain_line_splits_like_split_whitespace() {
    for line in ["ls  -la\tdir  other", "  a b\t\tc ", "x", "   ", "cp a.txt b/"] {
        let fields: Vec<&str> = line.split_whitespace().collect();
        let (cmd, args) = words(line, Some("/home/u"));
        if fields.is_empty() {
            assert_eq!(cmd, "");
            assert!(args.is_empty());
        } else {
            assert_eq!(cmd, fields[0]);
            assert_eq!(args, strs(&fields[1..]));
        }
    }
}

#[test]
fn complete_lines_join_complete() {
    let lines = ["echo 'a b'", "x\\\\", "\"q\" 'r'", "", "a\\ b"];
    for a in lines {
        for b in lines {
            assert!(is_command_complete(a) && is_command_complete(b));
            assert!(is_command_complete(&format!("{}{}", a, b)));
        }
    }
}

#[test]
fn trimmed_plain_command_line_is_complete_and_splits_at_blanks() {
    for line in ["  ls -la\tdir  ", "\tcat a b\t", "  ", "mkdir x"] {
        let trimmed = trim(line);
        assert!(is_command_complete(&trimmed));
        let fields: Vec<&str> = line.split_whitespace().collect();
        let (cmd, args) = parse_line(&trimmed, None);
        if fields.is_empty() {
            assert_eq!(cmd, "");
            assert!(args.is_empty());
        } else {
            assert_eq!(cmd, fields[0]);
            assert_eq!(args, strs(&fields[1..]));
        }
    }
}
