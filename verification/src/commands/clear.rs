//! `clear`: the terminal sequence that clears the screen.

use vstd::prelude::*;
use crate::text::owned;

verus! {

/// The text `clear` writes: erase the screen (`ESC [2J`), then move the
/// cursor to the top-left corner (`ESC [H`); an error when it is given
/// arguments.
pub fn clear_text(args: &[String]) -> (r: Result<String, String>)
    ensures
        args.len() > 0 ==> (r matches Err(m) && m@
            == "clear: the command clear doesn't support options one is enough"@),
        args.len() == 0 ==> (r matches Ok(t) && t@ == "\x1B[2J\x1B[H"@),
{
    if args.len() > 0 {
        Err(owned("clear: the command clear doesn't support options one is enough"))
    } else {
        Ok(owned("\x1B[2J\x1B[H"))
    }
}

} // verus!
