//! What is written out for a result.

use vstd::prelude::*;
use vstd::string::StringExecFns;

verus! {

/// The line that shows `s`: the text itself, then a line feed.
pub fn print(s: &str) -> (line: String)
    ensures
        line@ == s@.push('\n'),
{
    let mut line = String::from_str(s);
    line.push('\n');
    line
}

} // verus!
