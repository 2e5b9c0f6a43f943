//! The machine-readable line that ends a run's output.

use vstd::prelude::*;
use vstd::string::StringExecFns;

verus! {

/// The text of the result line for three formatted fields.
pub open spec fn csv_line_spec(
    elapsed_seconds: Seq<char>,
    memory_delta_mb: Seq<char>,
    average_cpu_percent: Seq<char>,
) -> Seq<char> {
    "RESULT_CSV:"@ + elapsed_seconds + ","@ + memory_delta_mb + ","@ + average_cpu_percent
}

/// Frames the result line from its three fields, which the caller has
/// formatted: the elapsed seconds, the memory delta in megabytes, and the
/// average CPU usage in percent.
pub fn csv_line(elapsed_seconds: &str, memory_delta_mb: &str, average_cpu_percent: &str) -> (line:
    String)
    ensures
        line@ == csv_line_spec(elapsed_seconds@, memory_delta_mb@, average_cpu_percent@),
{
    let mut line = String::from_str("RESULT_CSV:");
    line.append(elapsed_seconds);
    line.append(",");
    line.append(memory_delta_mb);
    line.append(",");
    line.append(average_cpu_percent);
    line
}

} // verus!
