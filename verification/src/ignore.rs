//! Interpreting what the version-control ignore check returned.
//!
//! The surrounding program runs the external tool (one candidate path per
//! argument, the content root as working directory) and hands its exit code
//! and captured output here; the decision of what they mean is made and
//! verified in this module. The tool lists one ignored path per output
//! line; only a clean exit carries ignored paths, and any failure aborts
//! the scan in progress.

use vstd::prelude::*;

use crate::text::{lines_of, split_lines, trim_str, trimmed};

verus! {

/// Why a scan was abandoned. The previous snapshot stays in place.
#[derive(Debug)]
pub enum ScanError {
    /// A filesystem operation failed during the walk.
    Io(String),
    /// A path under the content root was not valid text.
    UndecodablePath,
    /// The ignore tool ran and failed; the text holds what it printed.
    IgnoreTool(String),
}

impl ScanError {
    /// A short account of the failure, for logs.
    pub fn message(&self) -> String {
        match self {
            ScanError::Io(m) => String::from_str("filesystem error during scan: ").concat(
                m.as_str(),
            ),
            ScanError::UndecodablePath => String::from_str("a path was not valid text"),
            ScanError::IgnoreTool(m) => String::from_str("ignore check failed: ").concat(
                m.as_str(),
            ),
        }
    }
}

/// The ignored paths an output text lists: one per line, trimmed.
pub open spec fn spec_ignored_paths(out: Seq<char>) -> Seq<Seq<char>> {
    lines_of(out).map_values(|l: Seq<char>| trimmed(l))
}

/// Reads the ignore tool's outcome: its ignored paths on a clean exit, and
/// an error otherwise — a missing exit code, the tool's own "not a
/// repository" failure, or any other nonzero exit.
pub fn interpret_ignore_output(code: Option<i32>, stdout: &str, stderr: &str) -> (r: Result<
    Vec<String>,
    ScanError,
>)
    ensures
        match r {
            Ok(v) => code == Some(0i32) && v.deep_view() == spec_ignored_paths(stdout@),
            Err(e) => code != Some(0i32) && (e matches ScanError::IgnoreTool(_)),
        },
{
    match code {
        Some(0) => {
            let lines = split_lines(stdout);
            let n = lines.len();
            let ghost ls = lines.deep_view();
            let ghost f = |l: Seq<char>| trimmed(l);
            let mut out: Vec<String> = Vec::new();
            let mut i: usize = 0;
            while i < n
                invariant
                    i <= n,
                    n == lines.len(),
                    ls == lines.deep_view(),
                    out.deep_view() =~= ls.take(i as int).map_values(f),
                    f == (|l: Seq<char>| trimmed(l)),
                decreases n - i,
            {
                let t = trim_str(lines[i].as_str());
                let ghost pre = out.deep_view();
                out.push(t);
                proof {
                    assert(out.deep_view() =~= pre.push(f(ls[i as int])));
                    assert(ls.take(i + 1).map_values(f) =~= pre.push(f(ls[i as int])));
                }
                i = i + 1;
            }
            proof {
                assert(ls.take(n as int) =~= ls);
            }
            Ok(out)
        },
        Some(128) => {
            let mut m = String::from_str("exited with the no-repository status; output: ");
            m.append(stderr);
            Err(ScanError::IgnoreTool(m))
        },
        Some(_) => {
            let mut m = String::from_str("exited unsuccessfully; output: ");
            m.append(stderr);
            Err(ScanError::IgnoreTool(m))
        },
        None => Err(ScanError::IgnoreTool(String::from_str("exited without a code"))),
    }
}

} // verus!
