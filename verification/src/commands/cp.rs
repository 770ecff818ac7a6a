//! `cp`: its operands and where each source goes.

use vstd::prelude::*;
use crate::parser::string_views;
use crate::paths::{file_name, file_name_of, join_chars, path_join};
use crate::text::{append_str, chars_of, owned, string_of};

verus! {

/// The sources and the destination of `cp`.
pub struct CpPlan {
    pub sources: Vec<String>,
    pub dest: String,
}

/// Reads the operands of `cp`: the last is the destination, the others
/// are the sources; fewer than two is an error.
pub fn cp_plan(args: &[String]) -> (r: Result<CpPlan, String>)
    ensures
        args.len() < 2 ==> (r matches Err(m) && m@ == "cp: missing file operand"@),
        args.len() >= 2 ==> (r matches Ok(p) && string_views(p.sources@) == string_views(args@).drop_last()
            && p.dest@ == args@.last()@),
{
    if args.len() < 2 {
        return Err(owned("cp: missing file operand"));
    }
    let n = args.len() - 1;
    let mut sources: Vec<String> = Vec::new();
    let mut i: usize = 0;
    while i < n
        invariant
            n == args.len() - 1,
            i <= n,
            string_views(sources@) == string_views(args@).take(i as int),
        decreases n - i,
    {
        let s = owned(args[i].as_str());
        let ghost before = sources@;
        sources.push(s);
        assert(string_views(sources@) =~= string_views(before).push(s@));
        assert(string_views(args@).take(i as int).push(args@[i as int]@) =~= string_views(args@).take(i + 1));
        i = i + 1;
    }
    assert(string_views(args@).take(n as int) =~= string_views(args@).drop_last());
    Ok(CpPlan { sources, dest: owned(args[n].as_str()) })
}

/// The message for a destination that does not exist.
pub fn cp_missing_target_message(dest: &str) -> (r: String)
    ensures
        r@ == "cp: target '"@ + dest@ + "' does not exist"@,
{
    let mut m: Vec<char> = Vec::new();
    append_str(&mut m, "cp: target '");
    append_str(&mut m, dest);
    append_str(&mut m, "' does not exist");
    string_of(&m)
}

/// What `cp` does with one source.
pub enum CpAction {
    /// Report a problem and go on with the next source.
    Skip(String),
    /// Copy the source to this path.
    Copy(String),
}

/// The path a source is copied to, or the message when it is not: a
/// missing source is reported; into a directory, the source keeps its
/// file name (a source without one is reported); onto anything else, the
/// destination itself.
pub open spec fn cp_outcome(src: Seq<char>, exists: bool, dest: Seq<char>, dest_is_dir: bool) -> Result<
    Seq<char>,
    Seq<char>,
> {
    if !exists {
        Err("cp: cannot stat '"@ + src + "': No such file or directory"@)
    } else if dest_is_dir {
        match file_name(src) {
            Some(n) => Ok(path_join(dest, n)),
            None => Err("cp: invalid source file '"@ + src + "'"@),
        }
    } else {
        Ok(dest)
    }
}

/// What `cp` does with the source `src` (see [`cp_outcome`]).
pub fn cp_action(src: &str, exists: bool, dest: &str, dest_is_dir: bool) -> (r: CpAction)
    ensures
        match cp_outcome(src@, exists, dest@, dest_is_dir) {
            Ok(t) => r matches CpAction::Copy(p) && p@ == t,
            Err(e) => r matches CpAction::Skip(m) && m@ == e,
        },
{
    if !exists {
        let mut m: Vec<char> = Vec::new();
        append_str(&mut m, "cp: cannot stat '");
        append_str(&mut m, src);
        append_str(&mut m, "': No such file or directory");
        return CpAction::Skip(string_of(&m));
    }
    if dest_is_dir {
        let s = chars_of(src);
        match file_name_of(&s) {
            Some(n) => {
                let d = chars_of(dest);
                let t = join_chars(&d, &n);
                CpAction::Copy(string_of(&t))
            },
            None => {
                let mut m: Vec<char> = Vec::new();
                append_str(&mut m, "cp: invalid source file '");
                append_str(&mut m, src);
                append_str(&mut m, "'");
                CpAction::Skip(string_of(&m))
            },
        }
    } else {
        CpAction::Copy(owned(dest))
    }
}

} // verus!

verus! {

/// Copying into a directory keeps the source's file name: the path a
/// source is copied to has the same final component as the source.
pub proof fn lemma_copy_into_directory_keeps_name(src: Seq<char>, dest: Seq<char>)
    requires
        file_name(src) is Some,
    ensures
        cp_outcome(src, true, dest, true) matches Ok(t) && file_name(t) == file_name(src),
{
    crate::paths::lemma_file_name_is_normal(src);
    crate::paths::lemma_join_file_name(dest, file_name(src).unwrap());
}

} // verus!
