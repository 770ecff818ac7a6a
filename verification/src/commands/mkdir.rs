//! `mkdir`: its operands.

use vstd::prelude::*;
use crate::text::owned;

verus! {

/// `mkdir` needs at least one operand: the message when it has none.
pub fn mkdir_check(args: &[String]) -> (r: Result<(), String>)
    ensures
        args.len() == 0 ==> (r matches Err(m) && m@ == "mkdir: missing operand"@),
        args.len() > 0 ==> r is Ok,
{
    if args.len() == 0 {
        Err(owned("mkdir: missing operand"))
    } else {
        Ok(())
    }
}

} // verus!
