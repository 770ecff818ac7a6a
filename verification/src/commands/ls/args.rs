//! The arguments of `ls`: the options `-a`, `-l`, `-F` (combinable, as in
//! `-la`) and the paths; `-` alone is a path.

use vstd::prelude::*;
use crate::parser::string_views;
use crate::text::{append_str, chars_of, owned, string_of};

verus! {

/// What the arguments of `ls` ask for.
pub struct LsOptions {
    /// `-a`: show hidden entries, and `.` and `..`.
    pub show_all: bool,
    /// `-l`: the long format.
    pub long_format: bool,
    /// `-F`: a suffix after each name that tells its type.
    pub append_types: bool,
    /// The paths to list, in order.
    pub paths: Vec<String>,
}

/// An argument that holds options: it starts with `-` and is not `-` alone.
pub open spec fn is_option_arg(a: Seq<char>) -> bool {
    a.len() > 1 && a[0] == '-'
}

/// The option letters that `ls` knows.
pub open spec fn is_option_letter(c: char) -> bool {
    c == 'a' || c == 'l' || c == 'F'
}

/// The first character of `s` that is no option letter.
pub open spec fn first_unknown_letter(s: Seq<char>) -> Option<char>
    decreases s.len(),
{
    if s.len() == 0 {
        None
    } else if !is_option_letter(s[0]) {
        Some(s[0])
    } else {
        first_unknown_letter(s.drop_first())
    }
}

/// The first unknown option letter among the arguments, in order.
pub open spec fn first_invalid_option(args: Seq<Seq<char>>) -> Option<char>
    decreases args.len(),
{
    if args.len() == 0 {
        None
    } else {
        let here = if is_option_arg(args[0]) {
            first_unknown_letter(args[0].drop_first())
        } else {
            None
        };
        match here {
            Some(c) => Some(c),
            None => first_invalid_option(args.drop_first()),
        }
    }
}

/// Whether the option argument `a` holds the letter `letter`.
pub open spec fn holds_letter(a: Seq<char>, letter: char) -> bool {
    exists|j: int| 1 <= j < a.len() && a[j] == letter
}

/// Whether some option argument holds the letter `letter`.
pub open spec fn has_option(args: Seq<Seq<char>>, letter: char) -> bool {
    exists|i: int| 0 <= i < args.len() && is_option_arg(#[trigger] args[i]) && holds_letter(args[i], letter)
}

/// The arguments that are paths, in order.
pub open spec fn path_args(args: Seq<Seq<char>>) -> Seq<Seq<char>>
    decreases args.len(),
{
    if args.len() == 0 {
        seq![]
    } else {
        let rest = path_args(args.drop_last());
        if is_option_arg(args.last()) {
            rest
        } else {
            rest.push(args.last())
        }
    }
}

/// The message for an unknown option letter.
pub open spec fn invalid_option_message(c: char) -> Seq<char> {
    "ls: invalid option -- '"@ + seq![c, '\'']
}

proof fn lemma_first_invalid_option_prefix(args: Seq<Seq<char>>, i: int)
    requires
        0 <= i < args.len(),
        first_invalid_option(args.take(i)) is None,
    ensures
        first_invalid_option(args.take(i + 1)) == (if is_option_arg(args[i]) {
            first_unknown_letter(args[i].drop_first())
        } else {
            None
        }),
    decreases i,
{
    let t = args.take(i + 1);
    let here0 = if is_option_arg(args[0]) {
        first_unknown_letter(args[0].drop_first())
    } else {
        None
    };
    assert(t[0] == args[0]);
    assert(first_invalid_option(t) == (match here0 {
        Some(c) => Some(c),
        None => first_invalid_option(t.drop_first()),
    }));
    if i > 0 {
        let s = args.take(i);
        assert(s[0] == args[0]);
        assert(first_invalid_option(s) == (match here0 {
            Some(c) => Some(c),
            None => first_invalid_option(s.drop_first()),
        }));
        assert(s.drop_first() =~= args.drop_first().take(i - 1));
        assert(t.drop_first() =~= args.drop_first().take(i));
        lemma_first_invalid_option_prefix(args.drop_first(), i - 1);
        assert(args.drop_first()[i - 1] == args[i]);
    } else {
        assert(t.drop_first() =~= seq![]);
    }
}

/// Reads the option letters of one option argument: sets the flags, or
/// gives the first unknown letter.
fn read_letters(
    a: &Vec<char>,
    show_all: &mut bool,
    long_format: &mut bool,
    append_types: &mut bool,
) -> (bad: Option<char>)
    requires
        a@.len() > 1,
    ensures
        bad == first_unknown_letter(a@.drop_first()),
        bad is None ==> *final(show_all) == (*old(show_all) || holds_letter(a@, 'a')),
        bad is None ==> *final(long_format) == (*old(long_format) || holds_letter(a@, 'l')),
        bad is None ==> *final(append_types) == (*old(append_types) || holds_letter(a@, 'F')),
{
    let mut k: usize = 1;
    assert(a@.skip(1) =~= a@.drop_first());
    while k < a.len()
        invariant
            1 <= k <= a.len(),
            first_unknown_letter(a@.drop_first()) == first_unknown_letter(a@.skip(k as int)),
            *show_all == (*old(show_all) || exists|j: int| 1 <= j < k && a@[j] == 'a'),
            *long_format == (*old(long_format) || exists|j: int| 1 <= j < k && a@[j] == 'l'),
            *append_types == (*old(append_types) || exists|j: int| 1 <= j < k && a@[j] == 'F'),
        decreases a.len() - k,
    {
        let c = a[k];
        assert(a@.skip(k as int)[0] == c);
        assert(a@.skip(k as int).drop_first() =~= a@.skip(k + 1));
        if c == 'a' {
            *show_all = true;
        } else if c == 'l' {
            *long_format = true;
        } else if c == 'F' {
            *append_types = true;
        } else {
            return Some(c);
        }
        k = k + 1;
    }
    assert(a@.skip(k as int) =~= seq![]);
    None
}

/// The options and paths of an `ls` command line (see [`LsOptions`]); an
/// unknown option letter is an error.
pub fn parse_ls_args(args: &[String]) -> (r: Result<LsOptions, String>)
    ensures
        match r {
            Ok(o) => {
                &&& first_invalid_option(string_views(args@)) is None
                &&& o.show_all == has_option(string_views(args@), 'a')
                &&& o.long_format == has_option(string_views(args@), 'l')
                &&& o.append_types == has_option(string_views(args@), 'F')
                &&& string_views(o.paths@) == path_args(string_views(args@))
            },
            Err(e) => first_invalid_option(string_views(args@)) matches Some(c) && e@
                == invalid_option_message(c),
        },
{
    let ghost views = string_views(args@);
    let mut show_all = false;
    let mut long_format = false;
    let mut append_types = false;
    let mut paths: Vec<String> = Vec::new();
    let mut i: usize = 0;
    assert(views.take(0) =~= seq![]);
    assert(string_views(paths@) =~= seq![]);
    while i < args.len()
        invariant
            views == string_views(args@),
            views.len() == args.len(),
            i <= args.len(),
            first_invalid_option(views.take(i as int)) is None,
            show_all == has_option(views.take(i as int), 'a'),
            long_format == has_option(views.take(i as int), 'l'),
            append_types == has_option(views.take(i as int), 'F'),
            string_views(paths@) == path_args(views.take(i as int)),
        decreases args.len() - i,
    {
        let a = chars_of(args[i].as_str());
        assert(a@ == views[i as int]);
        let ghost t = views.take(i + 1);
        assert(t.drop_last() =~= views.take(i as int));
        assert(t.last() == views[i as int]);
        proof {
            lemma_first_invalid_option_prefix(views, i as int);
            assert(views.take(i + 1).take(i as int) =~= views.take(i as int));
        }
        if a.len() > 1 && a[0] == '-' {
            let ghost (sa, lf, at) = (show_all, long_format, append_types);
            match read_letters(&a, &mut show_all, &mut long_format, &mut append_types) {
                Some(c) => {
                    proof {
                        assert(first_invalid_option(t) == Some(c));
                        lemma_invalid_option_extends(views, i + 1);
                    }
                    let mut m: Vec<char> = Vec::new();
                    append_str(&mut m, "ls: invalid option -- '");
                    m.push(c);
                    m.push('\'');
                    assert(m@ =~= invalid_option_message(c));
                    return Err(string_of(&m));
                },
                None => {
                    proof {
                        lemma_has_option_step(views, i as int, 'a');
                        lemma_has_option_step(views, i as int, 'l');
                        lemma_has_option_step(views, i as int, 'F');
                    }
                },
            }
        } else {
            let ghost before = paths@;
            let p = owned(args[i].as_str());
            paths.push(p);
            assert(string_views(paths@) =~= string_views(before).push(p@));
            proof {
                lemma_has_option_step(views, i as int, 'a');
                lemma_has_option_step(views, i as int, 'l');
                lemma_has_option_step(views, i as int, 'F');
            }
        }
        i = i + 1;
    }
    assert(views.take(args.len() as int) =~= views);
    Ok(LsOptions { show_all, long_format, append_types, paths })
}

proof fn lemma_has_option_step(views: Seq<Seq<char>>, i: int, letter: char)
    requires
        0 <= i < views.len(),
    ensures
        has_option(views.take(i + 1), letter) == (has_option(views.take(i), letter) || (is_option_arg(
            views[i],
        ) && holds_letter(views[i], letter))),
{
    let t = views.take(i + 1);
    let s = views.take(i);
    if has_option(t, letter) {
        let a = choose|a: int| 0 <= a < t.len() && is_option_arg(#[trigger] t[a]) && holds_letter(t[a], letter);
        if a < i {
            assert(s[a] == t[a]);
        }
    }
    if has_option(s, letter) {
        let a = choose|a: int| 0 <= a < s.len() && is_option_arg(#[trigger] s[a]) && holds_letter(s[a], letter);
        assert(t[a] == s[a]);
    }
    if is_option_arg(views[i]) && holds_letter(views[i], letter) {
        assert(t[i] == views[i]);
    }
}

proof fn lemma_invalid_option_extends(views: Seq<Seq<char>>, i: int)
    requires
        0 < i <= views.len(),
        first_invalid_option(views.take(i)) is Some,
    ensures
        first_invalid_option(views) == first_invalid_option(views.take(i)),
    decreases i,
{
    let t = views.take(i);
    assert(t[0] == views[0]);
    let here = if is_option_arg(views[0]) {
        first_unknown_letter(views[0].drop_first())
    } else {
        None
    };
    if here is None {
        assert(t.drop_first() =~= views.drop_first().take(i - 1));
        lemma_invalid_option_extends(views.drop_first(), i - 1);
    }
}

} // verus!

verus! {

/// The paths that `ls` lists: those given, or the working directory `cwd`
/// when none is given.
pub open spec fn listed_paths(paths: Seq<Seq<char>>, cwd: Seq<char>) -> Seq<Seq<char>> {
    if paths.len() == 0 {
        seq![cwd]
    } else {
        paths
    }
}

/// The paths that `ls` lists (see [`listed_paths`]), where `cwd` is the
/// working directory or the error of reading it; that error is the result
/// only when no path is given.
pub fn paths_to_list(paths: Vec<String>, cwd: Result<String, String>) -> (r: Result<
    Vec<String>,
    String,
>)
    ensures
        match cwd {
            Ok(c) => r matches Ok(v) && string_views(v@) == listed_paths(string_views(paths@), c@),
            Err(e) => if paths@.len() == 0 {
                r == Err::<Vec<String>, String>(e)
            } else {
                r matches Ok(v) && v@ == paths@
            },
        },
{
    if paths.len() == 0 {
        match cwd {
            Ok(c) => {
                let ghost cv = c@;
                let mut v: Vec<String> = Vec::new();
                v.push(c);
                assert(string_views(v@) =~= seq![cv]);
                Ok(v)
            },
            Err(e) => Err(e),
        }
    } else {
        Ok(paths)
    }
}

proof fn lemma_first_invalid_option_push(args: Seq<Seq<char>>, p: Seq<char>)
    requires
        !is_option_arg(p),
    ensures
        first_invalid_option(args.push(p)) == first_invalid_option(args),
    decreases args.len(),
{
    let u = args.push(p);
    if args.len() == 0 {
        assert(u.drop_first() =~= Seq::<Seq<char>>::empty());
        assert(u[0] == p);
    } else {
        assert(u[0] == args[0]);
        assert(u.drop_first() =~= args.drop_first().push(p));
        lemma_first_invalid_option_push(args.drop_first(), p);
    }
}

/// `ls` with options only lists the working directory: adding the
/// working directory `cwd` (an argument that holds no options) to
/// arguments that name no path changes neither the options nor whether
/// they are valid, and the paths listed are `cwd` alone either way.
pub proof fn lemma_no_path_lists_working_directory(args: Seq<Seq<char>>, cwd: Seq<char>)
    requires
        path_args(args).len() == 0,
        !is_option_arg(cwd),
    ensures
        first_invalid_option(args.push(cwd)) == first_invalid_option(args),
        forall|c: char| has_option(args.push(cwd), c) == has_option(args, c),
        listed_paths(path_args(args), cwd) == seq![cwd],
        listed_paths(path_args(args.push(cwd)), cwd) == seq![cwd],
{
    let u = args.push(cwd);
    lemma_first_invalid_option_push(args, cwd);
    assert(u.drop_last() =~= args);
    assert(path_args(u) =~= seq![cwd]);
    assert forall|c: char| has_option(u, c) == has_option(args, c) by {
        if has_option(u, c) {
            let i = choose|i: int| 0 <= i < u.len() && is_option_arg(#[trigger] u[i]) && holds_letter(u[i], c);
            assert(i < args.len());
            assert(u[i] == args[i]);
        }
        if has_option(args, c) {
            let i = choose|i: int| 0 <= i < args.len() && is_option_arg(#[trigger] args[i]) && holds_letter(args[i], c);
            assert(u[i] == args[i]);
        }
    }
}

} // verus!
