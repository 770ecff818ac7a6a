//! `cat`: what to copy to standard output, in order.

use vstd::prelude::*;
use crate::parser::string_views;
use crate::text::{append_str, chars_of, owned, same_chars, string_of};

verus! {

/// One step of `cat`.
pub enum CatStep {
    /// Copy standard input.
    Stdin,
    /// Print a notice (for `--`, which is no valid flag here).
    Notice(String),
    /// Print the file with this name.
    File(String),
}

/// The view of a step: 0 for standard input, 1 for a notice, 2 for a
/// file, with its text.
pub open spec fn step_view(s: CatStep) -> (int, Seq<char>) {
    match s {
        CatStep::Stdin => (0, seq![]),
        CatStep::Notice(m) => (1, m@),
        CatStep::File(f) => (2, f@),
    }
}

/// The step for one argument: `-` is standard input, `--` a notice, any
/// other argument a file.
pub open spec fn cat_step_for(arg: Seq<char>) -> (int, Seq<char>) {
    if arg == seq!['-'] {
        (0, seq![])
    } else if arg == seq!['-', '-'] {
        (1, "cat: --: Not valid flag"@)
    } else {
        (2, arg)
    }
}

/// The steps of `cat` with arguments `args`: standard input alone when
/// there is none, one step per argument otherwise.
pub open spec fn cat_steps(args: Seq<Seq<char>>) -> Seq<(int, Seq<char>)> {
    if args.len() == 0 {
        seq![(0, seq![])]
    } else {
        args.map_values(|a: Seq<char>| cat_step_for(a))
    }
}

/// The steps of `cat` (see [`cat_steps`]).
pub fn cat_plan(args: &[String]) -> (r: Vec<CatStep>)
    ensures
        r@.map_values(|s: CatStep| step_view(s)) == cat_steps(string_views(args@)),
{
    let ghost views = string_views(args@);
    let mut r: Vec<CatStep> = Vec::new();
    if args.len() == 0 {
        r.push(CatStep::Stdin);
        assert(r@.map_values(|s: CatStep| step_view(s)) =~= cat_steps(views));
        return r;
    }
    let mut dash: Vec<char> = Vec::new();
    dash.push('-');
    let mut dashes: Vec<char> = Vec::new();
    dashes.push('-');
    dashes.push('-');
    assert(dash@ =~= seq!['-']);
    assert(dashes@ =~= seq!['-', '-']);
    let mut i: usize = 0;
    while i < args.len()
        invariant
            views == string_views(args@),
            dash@ == seq!['-'],
            dashes@ == seq!['-', '-'],
            i <= args.len(),
            r@.map_values(|s: CatStep| step_view(s)) == views.map_values(
                |a: Seq<char>| cat_step_for(a),
            ).take(i as int),
        decreases args.len() - i,
    {
        let a = chars_of(args[i].as_str());
        assert(a@ == views[i as int]);
        let step = if same_chars(&a, &dash) {
            CatStep::Stdin
        } else if same_chars(&a, &dashes) {
            CatStep::Notice(owned("cat: --: Not valid flag"))
        } else {
            CatStep::File(owned(args[i].as_str()))
        };
        assert(step_view(step) == cat_step_for(views[i as int]));
        let ghost before = r@;
        r.push(step);
        assert(r@.map_values(|s: CatStep| step_view(s)) =~= before.map_values(|s: CatStep| step_view(s)).push(step_view(step)));
        assert(views.map_values(|a: Seq<char>| cat_step_for(a)).take(i as int).push(cat_step_for(views[i as int]))
            =~= views.map_values(|a: Seq<char>| cat_step_for(a)).take(i + 1));
        i = i + 1;
    }
    assert(views.map_values(|a: Seq<char>| cat_step_for(a)).take(args.len() as int) =~= views.map_values(
        |a: Seq<char>| cat_step_for(a),
    ));
    r
}

/// The message for a file that cannot be opened.
pub fn cat_missing_message(name: &str) -> (r: String)
    ensures
        r@ == "cat: "@ + name@ + ": No such file"@,
{
    let mut m: Vec<char> = Vec::new();
    append_str(&mut m, "cat: ");
    append_str(&mut m, name);
    append_str(&mut m, ": No such file");
    string_of(&m)
}

} // verus!
