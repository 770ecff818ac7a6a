//! The commands of the shell and the dispatch from a command name to one.

pub mod cat;
pub mod cd;
pub mod clear;
pub mod cp;
pub mod exit;
pub mod ls;
pub mod mkdir;
pub mod rm;

use vstd::prelude::*;
use crate::parser::string_views;
use crate::text::{append_str, chars_of, owned, same_chars, string_of};

verus! {

/// The commands that the shell runs.
#[derive(Clone, Copy, Debug, PartialEq, Eq, Structural)]
pub enum CommandKind {
    Exit,
    Echo,
    Cd,
    Pwd,
    Ls,
    Cat,
    Cp,
    Mv,
    Mkdir,
}

/// A command to run with its arguments.
pub struct Invocation {
    pub kind: CommandKind,
    pub args: Vec<String>,
}

/// The command that a name stands for.
pub open spec fn command_named(name: Seq<char>) -> Option<CommandKind> {
    if name == "exit"@ {
        Some(CommandKind::Exit)
    } else if name == "echo"@ {
        Some(CommandKind::Echo)
    } else if name == "cd"@ {
        Some(CommandKind::Cd)
    } else if name == "pwd"@ {
        Some(CommandKind::Pwd)
    } else if name == "ls"@ {
        Some(CommandKind::Ls)
    } else if name == "cat"@ {
        Some(CommandKind::Cat)
    } else if name == "cp"@ {
        Some(CommandKind::Cp)
    } else if name == "mv"@ {
        Some(CommandKind::Mv)
    } else if name == "mkdir"@ {
        Some(CommandKind::Mkdir)
    } else {
        None
    }
}

/// The message for a name that is no command.
pub open spec fn not_found_text(name: Seq<char>) -> Seq<char> {
    "Command '"@ + name + "' not found"@
}

/// Whether `s` holds the same characters as `t`.
pub fn str_is(s: &str, t: &str) -> (r: bool)
    ensures
        r == (s@ == t@),
{
    same_chars(&chars_of(s), &chars_of(t))
}

/// The command that `cmd` names, to run with `args`; an error for a name
/// that is no command.
pub fn dispatch(cmd: &str, args: &[String]) -> (r: Result<Invocation, String>)
    ensures
        match r {
            Ok(inv) => command_named(cmd@) == Some(inv.kind) && string_views(inv.args@) == string_views(args@),
            Err(e) => command_named(cmd@) is None && e@ == not_found_text(cmd@),
        },
{
    let kind = if str_is(cmd, "exit") {
        CommandKind::Exit
    } else if str_is(cmd, "echo") {
        CommandKind::Echo
    } else if str_is(cmd, "cd") {
        CommandKind::Cd
    } else if str_is(cmd, "pwd") {
        CommandKind::Pwd
    } else if str_is(cmd, "ls") {
        CommandKind::Ls
    } else if str_is(cmd, "cat") {
        CommandKind::Cat
    } else if str_is(cmd, "cp") {
        CommandKind::Cp
    } else if str_is(cmd, "mv") {
        CommandKind::Mv
    } else if str_is(cmd, "mkdir") {
        CommandKind::Mkdir
    } else {
        let mut m: Vec<char> = Vec::new();
        append_str(&mut m, "Command '");
        append_str(&mut m, cmd);
        append_str(&mut m, "' not found");
        return Err(string_of(&m));
    };
    Ok(Invocation { kind, args: owned_strings(args) })
}

/// Owned copies of `args`.
pub fn owned_strings(args: &[String]) -> (r: Vec<String>)
    ensures
        string_views(r@) == string_views(args@),
{
    let mut r: Vec<String> = Vec::new();
    let mut i: usize = 0;
    while i < args.len()
        invariant
            i <= args.len(),
            string_views(r@) == string_views(args@).take(i as int),
        decreases args.len() - i,
    {
        let s = owned(args[i].as_str());
        let ghost before = r@;
        r.push(s);
        assert(string_views(r@) =~= string_views(before).push(s@));
        assert(string_views(args@).take(i as int).push(args@[i as int]@) =~= string_views(args@).take(i + 1));
        i = i + 1;
    }
    assert(string_views(args@).take(args.len() as int) =~= string_views(args@));
    r
}

} // verus!
