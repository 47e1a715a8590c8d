//! Rendering the statistics.

use vstd::prelude::*;
use crate::number::{decimal, decimal_string};
use crate::stats::Stats;

verus! {

/// The line that reports the most common word, with its line end.
pub open spec fn most_common_line(most_common: Option<(Seq<char>, nat)>) -> Seq<char> {
    match most_common {
        Some((word, count)) => "Most common:   '"@ + word + "' ("@ + decimal(count) + ")\n"@,
        None => "Most common:   (none)\n"@,
    }
}

/// The report: a heading and three lines, each with its line end.
pub open spec fn report_text(
    total_words: nat,
    unique_words: nat,
    most_common: Option<(Seq<char>, nat)>,
) -> Seq<char> {
    "--- Word Frequency Stats ---\n"@ + "Total words:   "@ + decimal(total_words) + "\n"@
        + "Unique words:  "@ + decimal(unique_words) + "\n"@ + most_common_line(most_common)
}

/// The most common word of `stats` as the report shows it.
pub open spec fn shown_most_common(stats: Stats) -> Option<(Seq<char>, nat)> {
    match stats.most_common {
        Some(pair) => Some((pair.0@, pair.1 as nat)),
        None => None,
    }
}

/// Renders the statistics for standard output. Rendering cannot fail.
pub fn render_report(stats: &Stats) -> (report: String)
    ensures
        report@ == report_text(
            stats.total_words as nat,
            stats.unique_words as nat,
            shown_most_common(*stats),
        ),
{
    let mut report: String = "--- Word Frequency Stats ---\n".to_owned();
    report.append("Total words:   ");
    report.append(decimal_string(stats.total_words).as_str());
    report.append("\n");
    report.append("Unique words:  ");
    report.append(decimal_string(stats.unique_words).as_str());
    report.append("\n");
    match &stats.most_common {
        Some(pair) => {
            let mut line: String = "Most common:   '".to_owned();
            line.append(pair.0.as_str());
            line.append("' (");
            line.append(decimal_string(pair.1).as_str());
            line.append(")\n");
            report.append(line.as_str());
        },
        None => {
            report.append("Most common:   (none)\n");
        },
    }
    report
}

} // verus!
