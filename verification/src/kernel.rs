//! The two lines that identify the kernel.

use crate::text::{trim, trimmed};
use vstd::prelude::*;
use vstd::string::*;

verus! {

/// The line that reports the kernel release, for what the release query
/// printed.
pub open spec fn release_line_text(output: Seq<char>) -> Seq<char> {
    "Kernel Release: "@ + trim(output)
}

/// The line that reports the full system identification, for what the query
/// printed.
pub open spec fn full_info_line_text(output: Seq<char>) -> Seq<char> {
    "Full Info: "@ + trim(output)
}

/// Renders the kernel release line: the label, and the output without the
/// whitespace round it.
pub fn release_line(uname_output: &str) -> (line: String)
    ensures
        line@ == release_line_text(uname_output@),
{
    let mut line = String::from_str("Kernel Release: ");
    line.append(trimmed(uname_output));
    line
}

/// Renders the full system identification line: the label, and the output
/// without the whitespace round it.
pub fn full_info_line(uname_output: &str) -> (line: String)
    ensures
        line@ == full_info_line_text(uname_output@),
{
    let mut line = String::from_str("Full Info: ");
    line.append(trimmed(uname_output));
    line
}

} // verus!
