//! Error messages for the terminal.
use crate::util::concat;
use colored::Colorize;
use std::io::Write;
use vstd::prelude::*;

verus! {

/// Formats an error line `[x] msg` with the `colored` crate (bold red marker,
/// bright red text). Whether colour codes are emitted depends on the
/// terminal and the environment, so nothing is claimed of the text.
#[verifier::external_body]
fn paint_error_line(msg: &str) -> String {
    format!("{} {}", "[x]".red().bold(), msg.bright_red())
}

/// Formats an error details line with the `colored` crate (dimmed label,
/// bright black text). Nothing is claimed of the text, as above.
#[verifier::external_body]
fn paint_details_line(details: &str) -> String {
    format!("{} {}", "    Details:".dimmed(), details.bright_black())
}

/// Writes a line to the standard error stream with `writeln!`; a failed
/// write is ignored.
#[verifier::external_body]
fn write_stderr_line(line: &str) {
    let _ = writeln!(std::io::stderr(), "{}", line);
}

/// The message about a bind address that cannot be resolved.
pub open spec fn resolve_error_message(addr: Seq<char>) -> Seq<char> {
    "The bind address '"@ + addr + "' is invalid or could not be resolved."@
}

/// Builds the message about a bind address that cannot be resolved.
pub fn resolve_error_text(addr: &str) -> (r: String)
    ensures
        r@ == resolve_error_message(addr@),
{
    concat(concat("The bind address '", addr).as_str(), "' is invalid or could not be resolved.")
}

/// Reports on the standard error stream that a bind address cannot be
/// resolved, with the resolver's error as details.
pub fn print_resolve_error(addr: &str, error: &str) {
    let msg = resolve_error_text(addr);
    write_stderr_line(paint_error_line(msg.as_str()).as_str());
    write_stderr_line(paint_details_line(error).as_str());
}

} // verus!
