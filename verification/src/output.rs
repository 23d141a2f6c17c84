//! What happens to the formatted output when the clipboard cannot take it.
use vstd::prelude::*;

use vstd::string::*;

use crate::args::OutputConfig;
use crate::report::{Report, ReportView};

verus! {

/// The result of the clipboard step.
#[derive(Clone, Copy, Debug, PartialEq, Eq, Structural)]
pub enum ClipboardOutcome {
    /// The clipboard took the output.
    Copied,
    /// Explicit `--clipboard` failed: an output failure.
    Failed,
    /// The implicit default clipboard failed: write to stdout instead.
    FallBackToStdout,
}

pub open spec fn clipboard_outcome_spec(explicit: bool, copied: bool) -> ClipboardOutcome {
    if copied {
        ClipboardOutcome::Copied
    } else if explicit {
        ClipboardOutcome::Failed
    } else {
        ClipboardOutcome::FallBackToStdout
    }
}

/// Decide the clipboard step's outcome from whether the copy succeeded.
///
/// An explicit `--clipboard` fails loudly; the implicit default (no output
/// flag) falls back to stdout.
pub fn clipboard_outcome(output: &OutputConfig, copied: bool) -> (r: ClipboardOutcome)
    ensures
        r == clipboard_outcome_spec(output.explicit, copied),
{
    if copied {
        ClipboardOutcome::Copied
    } else if output.explicit {
        ClipboardOutcome::Failed
    } else {
        ClipboardOutcome::FallBackToStdout
    }
}

/// Record the result of writing the output to one destination: a
/// successful write adds `label` to the report's destinations, a failed one
/// marks the run as failed. Returns whether the run has failed so far.
pub fn record_write(report: &mut Report, label: String, written: bool, failed: bool) -> (r: bool)
    ensures
        r == (failed || !written),
        written ==> final(report)@ == (ReportView {
            destinations: old(report)@.destinations.push(label@),
            ..old(report)@
        }),
        !written ==> final(report)@ == old(report)@,
{
    if written {
        report.add_destination(label);
        failed
    } else {
        true
    }
}

/// The report's name for an output file destination.
pub fn file_destination(path: &str) -> (r: String)
    ensures
        r@ == "file: "@ + path@,
{
    let mut r = String::from_str("file: ");
    r.append(path);
    r
}

/// The process exit status: 3 for an output failure, 0 for success.
pub fn exit_code(failed: bool) -> (r: i32)
    ensures
        r == (if failed {
            3i32
        } else {
            0i32
        }),
{
    if failed {
        3
    } else {
        0
    }
}

} // verus!
