//! `rm`: its operands, the `-r` flag, and what to do with each operand.

use vstd::prelude::*;
use crate::parser::string_views;
use crate::text::{append_str, chars_of, owned, same_chars, string_of};
use super::owned_strings;

verus! {

/// What `rm` goes through: whether `-r` was given, and the arguments it
/// visits, in order (all of them, `-r` included, as the command does).
pub struct RmPlan {
    pub recursive: bool,
    pub targets: Vec<String>,
}

/// The outcome of reading the arguments of `rm`: an error when there is no
/// argument or every argument is `-r`; otherwise whether `-r` is among
/// them, and every argument to visit.
pub open spec fn rm_outcome(args: Seq<Seq<char>>) -> Result<(bool, Seq<Seq<char>>), Seq<char>> {
    if args.len() == 0 || (forall|i: int| 0 <= i < args.len() ==> #[trigger] args[i] == "-r"@) {
        Err("rm: missing operand"@)
    } else {
        Ok((exists|i: int| 0 <= i < args.len() && #[trigger] args[i] == "-r"@, args))
    }
}

/// Reads the arguments of `rm` (see [`rm_outcome`]).
pub fn rm_plan(args: &[String]) -> (r: Result<RmPlan, String>)
    ensures
        match rm_outcome(string_views(args@)) {
            Ok((recursive, targets)) => r matches Ok(p) && p.recursive == recursive && string_views(
                p.targets@,
            ) == targets,
            Err(e) => r matches Err(m) && m@ == e,
        },
{
    let ghost views = string_views(args@);
    let flag = chars_of("-r");
    let mut recursive = false;
    let mut operands: usize = 0;
    let mut i: usize = 0;
    while i < args.len()
        invariant
            views == string_views(args@),
            flag@ == "-r"@,
            i <= args.len(),
            operands <= i,
            recursive == exists|k: int| 0 <= k < i && #[trigger] views[k] == "-r"@,
            (operands == 0) == (forall|k: int| 0 <= k < i ==> #[trigger] views[k] == "-r"@),
        decreases args.len() - i,
    {
        let a = chars_of(args[i].as_str());
        assert(a@ == views[i as int]);
        if same_chars(&a, &flag) {
            recursive = true;
        } else {
            operands = operands + 1;
        }
        i = i + 1;
    }
    if args.len() == 0 || operands == 0 {
        return Err(owned("rm: missing operand"));
    }
    Ok(RmPlan { recursive, targets: owned_strings(args) })
}

/// What `rm` does with one argument.
pub enum RmAction {
    /// Report that the path does not exist.
    Missing(String),
    /// Remove the directory and everything in it.
    RemoveTree,
    /// Report that the path is a directory and `-r` was not given.
    IsDirectory(String),
    /// Remove the file.
    RemoveFile,
}

/// The message for a path that does not exist.
pub open spec fn rm_missing_text(target: Seq<char>) -> Seq<char> {
    "rm: cannot remove '"@ + target + "': No such file or directory"@
}

/// The message for a directory without `-r`.
pub open spec fn rm_directory_text(target: Seq<char>) -> Seq<char> {
    "rm: cannot remove '"@ + target + "': Is a directory"@
}

/// What `rm` does with `target`: report a missing path; remove a
/// directory with everything in it under `-r`, report it otherwise;
/// remove anything else.
pub fn rm_action(target: &str, exists: bool, is_dir: bool, recursive: bool) -> (r: RmAction)
    ensures
        !exists ==> (r matches RmAction::Missing(m) && m@ == rm_missing_text(target@)),
        exists && is_dir && recursive ==> r is RemoveTree,
        exists && is_dir && !recursive ==> (r matches RmAction::IsDirectory(m) && m@
            == rm_directory_text(target@)),
        exists && !is_dir ==> r is RemoveFile,
{
    if !exists {
        let mut m: Vec<char> = Vec::new();
        append_str(&mut m, "rm: cannot remove '");
        append_str(&mut m, target);
        append_str(&mut m, "': No such file or directory");
        RmAction::Missing(string_of(&m))
    } else if is_dir {
        if recursive {
            RmAction::RemoveTree
        } else {
            let mut m: Vec<char> = Vec::new();
            append_str(&mut m, "rm: cannot remove '");
            append_str(&mut m, target);
            append_str(&mut m, "': Is a directory");
            RmAction::IsDirectory(string_of(&m))
        }
    } else {
        RmAction::RemoveFile
    }
}

} // verus!
