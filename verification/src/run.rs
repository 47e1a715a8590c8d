//! A run from its inputs to what the process shows of it.

use vstd::prelude::*;
use crate::args::ParsedOptions;
use crate::error::{message_text, CliError, CliErrorModel};
use crate::report::{render_report, report_text, shown_most_common};
use crate::stats::{analyze, kept_words, lemma_same_counts_same_stats, Stats};
use crate::tally::{first_seen, tally};

verus! {

/// What a finished run hands to the process: the text for each of the two
/// streams and the exit code.
#[derive(Debug, PartialEq, Eq)]
pub struct Outcome {
    pub stdout: String,
    pub stderr: String,
    pub exit_code: i32,
}

/// The report of a run whose file was read: the rendering of statistics
/// that describe the tally of the kept words.
pub open spec fn is_report_of(report: Seq<char>, text: Seq<char>, options: ParsedOptions) -> bool {
    exists|stats: Stats|
        {
            &&& stats.describes(
                tally(kept_words(text, options.min_length, options.starts_with)),
                first_seen(kept_words(text, options.min_length, options.starts_with)),
            )
            &&& report == #[trigger] report_text(
                stats.total_words as nat,
                stats.unique_words as nat,
                shown_most_common(stats),
            )
        }
}

/// The text and the options settle the report: two reports of the same run
/// are the same text.
pub proof fn lemma_report_is_settled(
    first: Seq<char>,
    second: Seq<char>,
    text: Seq<char>,
    options: ParsedOptions,
)
    requires
        is_report_of(first, text, options),
        is_report_of(second, text, options),
    ensures
        first == second,
{
    let counts = tally(kept_words(text, options.min_length, options.starts_with));
    let order = first_seen(kept_words(text, options.min_length, options.starts_with));
    let a = choose|stats: Stats|
        stats.describes(counts, order) && first == #[trigger] report_text(
            stats.total_words as nat,
            stats.unique_words as nat,
            shown_most_common(stats),
        );
    let b = choose|stats: Stats|
        stats.describes(counts, order) && second == #[trigger] report_text(
            stats.total_words as nat,
            stats.unique_words as nat,
            shown_most_common(stats),
        );
    lemma_same_counts_same_stats(a, b, counts, order);
    assert(shown_most_common(a) == shown_most_common(b));
}

/// The second half of a run, after the file named by `options` was read or
/// could not be. `read` holds the content of the file, or what the system
/// said of the failure. A file that was read gives its report; one that
/// was not gives the failure that names the path and the reason.
pub fn report_for(options: &ParsedOptions, read: Result<String, String>) -> (result: Result<
    String,
    CliError,
>)
    ensures
        match read {
            Ok(text) => result matches Ok(report) && is_report_of(report@, text@, *options),
            Err(reason) => result matches Err(error) && error@ == (CliErrorModel::FileRead {
                path: options.file_path@,
                reason: reason@,
            }),
        },
{
    match read {
        Ok(text) => {
            let stats = analyze(text.as_str(), options);
            Ok(render_report(&stats))
        },
        Err(reason) => Err(CliError::FileRead { path: options.file_path.clone(), reason }),
    }
}

/// Ends a run. A report goes to standard output, whole, with exit code 0
/// and nothing on the error stream. A failure puts its one-line diagnostic
/// on the error stream, nothing on standard output, and exits with 1.
pub fn conclude(result: Result<String, CliError>) -> (outcome: Outcome)
    ensures
        match result {
            Ok(report) => {
                &&& outcome.stdout@ == report@
                &&& outcome.stderr@.len() == 0
                &&& outcome.exit_code == 0
            },
            Err(error) => {
                &&& outcome.stdout@.len() == 0
                &&& outcome.stderr@ == message_text(error@) + "\n"@
                &&& outcome.exit_code == 1
            },
        },
{
    match result {
        Ok(report) => Outcome { stdout: report, stderr: String::new(), exit_code: 0 },
        Err(error) => {
            let mut line = error.message();
            line.append("\n");
            Outcome { stdout: String::new(), stderr: line, exit_code: error.exit_code() }
        },
    }
}

} // verus!
