//! The execution report printed in verbose mode.
use vstd::prelude::*;
use vstd::string::*;

use crate::args::Config;
use crate::text::{join_strings, join_with, strings_view};

verus! {

/// Clipboard reporting state.
#[derive(Clone, Copy, Debug, PartialEq, Eq, Structural)]
pub enum ClipboardStatus {
    NotRequested,
    Success,
    Failed,
}

impl Default for ClipboardStatus {
    /// Nothing was asked of the clipboard.
    fn default() -> (r: Self)
        ensures
            r == ClipboardStatus::NotRequested,
    {
        ClipboardStatus::NotRequested
    }
}

impl ClipboardStatus {
    /// The report's wording for the status.
    pub fn label(&self) -> (r: &'static str)
        ensures
            r@ == clipboard_label(*self),
    {
        match self {
            ClipboardStatus::NotRequested => "not requested",
            ClipboardStatus::Success => "success",
            ClipboardStatus::Failed => "failed",
        }
    }
}

pub open spec fn clipboard_label(s: ClipboardStatus) -> Seq<char> {
    match s {
        ClipboardStatus::NotRequested => "not requested"@,
        ClipboardStatus::Success => "success"@,
        ClipboardStatus::Failed => "failed"@,
    }
}

/// Execution report for verbose output.
pub struct Report {
    collected_files: usize,
    skipped_files: usize,
    output_size: usize,
    destinations: Vec<String>,
    clipboard: ClipboardStatus,
}

/// The model of a report.
#[verifier::ext_equal]
pub struct ReportView {
    pub collected_files: nat,
    pub skipped_files: nat,
    pub output_size: nat,
    pub destinations: Seq<Seq<char>>,
    pub clipboard: ClipboardStatus,
}

impl View for Report {
    type V = ReportView;

    closed spec fn view(&self) -> ReportView {
        ReportView {
            collected_files: self.collected_files as nat,
            skipped_files: self.skipped_files as nat,
            output_size: self.output_size as nat,
            destinations: strings_view(self.destinations@),
            clipboard: self.clipboard,
        }
    }
}

/// The destinations joined with `", "`, or `"none"` when there are none.
pub open spec fn destination_summary(d: Seq<Seq<char>>) -> Seq<char> {
    if d.len() == 0 {
        "none"@
    } else {
        join_with(d, ", "@)
    }
}

/// The summary names the destinations: `"none"` for no destination, a single
/// destination by itself, and each further destination after `", "`.
pub proof fn law_destination_summary(d: Seq<Seq<char>>, x: Seq<char>)
    ensures
        destination_summary(Seq::empty()) == "none"@,
        destination_summary(seq![x]) == x,
        d.len() > 0 ==> destination_summary(d.push(x)) == destination_summary(d) + ", "@ + x,
{
    assert(seq![x].len() == 1);
    if d.len() > 0 {
        assert(d.push(x).drop_last() =~= d);
        assert(d.push(x).len() >= 2);
    }
}

impl Report {
    /// Create a new, empty execution report.
    pub fn new() -> (r: Self)
        ensures
            r@ == (ReportView {
                collected_files: 0,
                skipped_files: 0,
                output_size: 0,
                destinations: Seq::empty(),
                clipboard: ClipboardStatus::NotRequested,
            }),
    {
        let r = Report {
            collected_files: 0,
            skipped_files: 0,
            output_size: 0,
            destinations: Vec::new(),
            clipboard: ClipboardStatus::NotRequested,
        };
        assert(r@ =~= ReportView {
            collected_files: 0,
            skipped_files: 0,
            output_size: 0,
            destinations: Seq::empty(),
            clipboard: ClipboardStatus::NotRequested,
        });
        r
    }

    /// Count one collected file.
    pub fn collect_file(&mut self)
        requires
            old(self)@.collected_files < usize::MAX,
        ensures
            final(self)@ == (ReportView {
                collected_files: old(self)@.collected_files + 1,
                ..old(self)@
            }),
    {
        self.collected_files = self.collected_files + 1;
        assert(self@ =~= ReportView {
            collected_files: old(self)@.collected_files + 1,
            ..old(self)@
        });
    }

    /// Count one skipped file.
    pub fn skip_file(&mut self)
        requires
            old(self)@.skipped_files < usize::MAX,
        ensures
            final(self)@ == (ReportView {
                skipped_files: old(self)@.skipped_files + 1,
                ..old(self)@
            }),
    {
        self.skipped_files = self.skipped_files + 1;
        assert(self@ =~= ReportView { skipped_files: old(self)@.skipped_files + 1, ..old(self)@ });
    }

    /// Store the final output size in bytes.
    pub fn set_output_size(&mut self, bytes: usize)
        ensures
            final(self)@ == (ReportView { output_size: bytes as nat, ..old(self)@ }),
    {
        self.output_size = bytes;
        assert(self@ =~= ReportView { output_size: bytes as nat, ..old(self)@ });
    }

    /// Add a successful output destination.
    pub fn add_destination(&mut self, destination: String)
        ensures
            final(self)@ == (ReportView {
                destinations: old(self)@.destinations.push(destination@),
                ..old(self)@
            }),
    {
        self.destinations.push(destination);
        assert(self@ =~= ReportView {
            destinations: old(self)@.destinations.push(destination@),
            ..old(self)@
        });
    }

    /// Store the clipboard result.
    pub fn set_clipboard(&mut self, status: ClipboardStatus)
        ensures
            final(self)@ == (ReportView { clipboard: status, ..old(self)@ }),
    {
        self.clipboard = status;
        assert(self@ =~= ReportView { clipboard: status, ..old(self)@ });
    }

    /// The number of collected files.
    pub fn collected_files(&self) -> (r: usize)
        ensures
            r == self@.collected_files,
    {
        self.collected_files
    }

    /// The number of skipped files.
    pub fn skipped_files(&self) -> (r: usize)
        ensures
            r == self@.skipped_files,
    {
        self.skipped_files
    }

    /// The final output size in bytes.
    pub fn output_size(&self) -> (r: usize)
        ensures
            r == self@.output_size,
    {
        self.output_size
    }

    /// The clipboard result.
    pub fn clipboard(&self) -> (r: ClipboardStatus)
        ensures
            r == self@.clipboard,
    {
        self.clipboard
    }

    /// The successful destinations, joined with `", "`, or `"none"`.
    pub fn destination_summary(&self) -> (r: String)
        ensures
            r@ == destination_summary(self@.destinations),
    {
        if self.destinations.len() == 0 {
            String::from_str("none")
        } else {
            join_strings(&self.destinations, ", ")
        }
    }

    /// Whether the report is printed: verbose mode on and quiet mode off.
    pub fn is_enabled(cfg: &Config) -> (r: bool)
        ensures
            r == (cfg.verbose && !cfg.quiet),
    {
        cfg.verbose && !cfg.quiet
    }
}

} // verus!
