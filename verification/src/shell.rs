//! The shell's read-eval loop decisions: what a line read from the input
//! leads to, the prompt, and which command a parsed line runs.

use vstd::prelude::*;
use crate::commands::{command_named, dispatch, not_found_text, Invocation};
use crate::parser::string_views;
use crate::text::{append_str, chars_of, string_of, trim, trimmed};

verus! {

/// The shell. It keeps no state of its own: the working directory and the
/// environment are the process's.
pub struct Shell;

/// What a line read from the input leads to.
pub enum LineAction {
    /// End of input: leave the loop.
    Exit,
    /// A blank line: prompt again.
    Skip,
    /// A command line, without surrounding whitespace.
    Run(String),
}

/// The prompt: the working directory, `$` and a space.
pub open spec fn prompt_text(cwd: Seq<char>) -> Seq<char> {
    cwd + seq!['$', ' ']
}

impl Shell {
    /// A new shell.
    pub fn new() -> (s: Shell) {
        Shell
    }

    /// What a line read from the input leads to: end of input (`None`)
    /// leaves the loop; a line with nothing but whitespace is skipped; any
    /// other line is run, trimmed.
    pub fn line_action(&self, line: Option<&str>) -> (r: LineAction)
        ensures
            match line {
                None => r is Exit,
                Some(l) => if trimmed(l@).len() == 0 {
                    r is Skip
                } else {
                    r matches LineAction::Run(t) && t@ == trimmed(l@)
                },
            },
    {
        match line {
            None => LineAction::Exit,
            Some(l) => {
                let t = trim(l);
                if chars_of(t.as_str()).len() == 0 {
                    LineAction::Skip
                } else {
                    LineAction::Run(t)
                }
            },
        }
    }

    /// The prompt shown before reading a line in the directory `cwd`.
    pub fn prompt(&self, cwd: &str) -> (r: String)
        ensures
            r@ == prompt_text(cwd@),
    {
        let mut v = chars_of(cwd);
        append_str(&mut v, "$ ");
        proof {
            reveal_strlit("$ ");
        }
        assert(v@ =~= prompt_text(cwd@));
        string_of(&v)
    }

    /// The command a parsed line runs: none for an empty command name,
    /// otherwise what [`dispatch`] finds for it.
    pub fn command_for(&self, cmd: &str, args: &[String]) -> (r: Option<Result<Invocation, String>>)
        ensures
            cmd@.len() == 0 ==> r is None,
            cmd@.len() > 0 ==> (r matches Some(d) && match d {
                Ok(inv) => command_named(cmd@) == Some(inv.kind) && string_views(inv.args@)
                    == string_views(args@),
                Err(e) => command_named(cmd@) is None && e@ == not_found_text(cmd@),
            }),
    {
        if chars_of(cmd).len() == 0 {
            None
        } else {
            Some(dispatch(cmd, args))
        }
    }
}

} // verus!
