//! `cd`: which directory to change to.

use vstd::prelude::*;
use crate::parser::string_views;
use crate::text::{append_chars, chars_of, chars_from, owned, same_chars, string_of};

verus! {

/// The directory to change to, whether to print it first (as `cd -`
/// does), and what `OLDPWD` becomes once the change is made: the working
/// directory it was made from.
pub struct CdTarget {
    pub path: String,
    pub print_path: bool,
    pub oldpwd_after: String,
}

/// The home directory, or `/` when it is not known.
pub open spec fn home_or_root(home: Option<Seq<char>>) -> Seq<char> {
    match home {
        Some(h) => h,
        None => seq!['/'],
    }
}

/// The home directory, or `/` when it is not known.
pub fn home_or_root_dir(home: Option<&str>) -> (r: String)
    ensures
        r@ == home_or_root(
            match home {
                Some(h) => Some(h@),
                None => None,
            },
        ),
{
    match home {
        Some(h) => owned(h),
        None => {
            let mut v: Vec<char> = Vec::new();
            v.push('/');
            assert(v@ =~= seq!['/']);
            string_of(&v)
        },
    }
}

/// The outcome of `cd` with arguments `args`, the home directory `home`
/// and the previous directory `oldpwd`: more than one argument is an
/// error; none, or `--`, is the home directory (or `/`); an argument that
/// starts with `~` has the `~` replaced by the home directory (or `/`);
/// `-` is the previous directory, printed, and an error when there is
/// none; any other argument is the directory itself.
pub open spec fn cd_outcome(
    args: Seq<Seq<char>>,
    home: Option<Seq<char>>,
    oldpwd: Option<Seq<char>>,
) -> Result<(Seq<char>, bool), Seq<char>> {
    if args.len() > 1 {
        Err("cd: too many arguments one is enogh"@)
    } else if args.len() == 0 || args[0] == "--"@ {
        Ok((home_or_root(home), false))
    } else if args[0].len() > 0 && args[0][0] == '~' {
        if args[0] == seq!['~'] {
            Ok((home_or_root(home), false))
        } else {
            Ok((home_or_root(home) + args[0].drop_first(), false))
        }
    } else if args[0] == seq!['-'] {
        match oldpwd {
            Some(o) => Ok((o, true)),
            None => Err("cd: OLDPWD not set"@),
        }
    } else {
        Ok((args[0], false))
    }
}

/// What `cd` does from the working directory `cwd`: the directory it
/// changes to and whether it prints it (see [`cd_outcome`]), and the value
/// of `OLDPWD` once the change is made, `cwd`.
pub open spec fn cd_effect(
    args: Seq<Seq<char>>,
    home: Option<Seq<char>>,
    oldpwd: Option<Seq<char>>,
    cwd: Seq<char>,
) -> Result<(Seq<char>, bool, Seq<char>), Seq<char>> {
    match cd_outcome(args, home, oldpwd) {
        Ok((p, print)) => Ok((p, print, cwd)),
        Err(e) => Err(e),
    }
}

/// `cd -` undoes a `cd` into a directory: `cd d` from the working
/// directory `c` changes to `d` and sets `OLDPWD` to `c`; from wherever
/// that led (`e`), `cd -` then changes back to `c`, printing it, and sets
/// `OLDPWD` to `e`.
pub proof fn lemma_cd_dash_returns(
    d: Seq<char>,
    home: Option<Seq<char>>,
    oldpwd: Option<Seq<char>>,
    c: Seq<char>,
    e: Seq<char>,
)
    requires
        d.len() > 0,
        d[0] != '~',
        d != "--"@,
        d != seq!['-'],
    ensures
        cd_effect(seq![d], home, oldpwd, c) == Ok::<(Seq<char>, bool, Seq<char>), Seq<char>>((d, false, c)),
        cd_effect(seq![seq!['-']], home, Some(c), e) == Ok::<(Seq<char>, bool, Seq<char>), Seq<char>>(
            (c, true, e),
        ),
{
    let dash: Seq<char> = seq!['-'];
    assert(dash.len() == 1 && dash[0] == '-');
    if dash == "--"@ {
        assert(dash.len() == 2) by {
            reveal_strlit("--");
        }
    }
}

/// Which directory `cd` changes to from the working directory `cwd` (see
/// [`cd_outcome`]), and what `OLDPWD` becomes after the change.
pub fn cd_target(args: &[String], home: Option<&str>, oldpwd: Option<&str>, cwd: &str) -> (r: Result<
    CdTarget,
    String,
>)
    ensures
        r matches Ok(t) ==> t.oldpwd_after@ == cwd@,
        match cd_outcome(
            string_views(args@),
            match home {
                Some(h) => Some(h@),
                None => None,
            },
            match oldpwd {
                Some(o) => Some(o@),
                None => None,
            },
        ) {
            Ok((p, print)) => r matches Ok(t) && t.path@ == p && t.print_path == print,
            Err(e) => r matches Err(m) && m@ == e,
        },
{
    if args.len() > 1 {
        return Err(owned("cd: too many arguments one is enogh"));
    }
    if args.len() == 0 {
        return Ok(CdTarget { path: home_or_root_dir(home), print_path: false, oldpwd_after: owned(cwd) });
    }
    let a = chars_of(args[0].as_str());
    assert(a@ == string_views(args@)[0]);
    if same_chars(&a, &chars_of("--")) {
        return Ok(CdTarget { path: home_or_root_dir(home), print_path: false, oldpwd_after: owned(cwd) });
    }
    if a.len() > 0 && a[0] == '~' {
        let h = home_or_root_dir(home);
        if a.len() == 1 {
            assert(a@ =~= seq!['~']);
            return Ok(CdTarget { path: h, print_path: false, oldpwd_after: owned(cwd) });
        }
        proof {
            if a@ == seq!['~'] {
                assert(a@.len() == 1);
            }
        }
        let mut v = chars_of(h.as_str());
        let rest = chars_from(&a, 1);
        assert(rest@ =~= a@.drop_first());
        append_chars(&mut v, &rest);
        return Ok(CdTarget { path: string_of(&v), print_path: false, oldpwd_after: owned(cwd) });
    }
    if a.len() == 1 && a[0] == '-' {
        assert(a@ =~= seq!['-']);
        return match oldpwd {
            Some(o) => Ok(CdTarget { path: owned(o), print_path: true, oldpwd_after: owned(cwd) }),
            None => Err(owned("cd: OLDPWD not set")),
        };
    }
    proof {
        if a@ == seq!['-'] {
            assert(a@.len() == 1 && a@[0] == '-');
        }
    }
    Ok(CdTarget { path: owned(args[0].as_str()), print_path: false, oldpwd_after: owned(cwd) })
}

} // verus!
