use wordfreq::args::parse_options;
use wordfreq::counts::WordCounts;
use wordfreq::error::CliError;
use wordfreq::report::render_report;
use wordfreq::run::{conclude, report_for};
use wordfreq::stats::{analyze, count_words, summarize, Stats};

const SAMPLE: &str = "The cat sat on the mat. The cat ran.";

fn args(list: &[&str]) -> Vec<String> {
    list.iter().map(|s| s.to_string()).collect()
}

#[test]
fn sample_without_flags() {
    let counts = count_words(SAMPLE, None, None);
    assert_eq!(counts.count("the"), 3);
    assert_eq!(counts.count("cat"), 2);
    assert_eq!(counts.count("sat"), 1);
    assert_eq!(counts.count("on"), 1);
    assert_eq!(counts.count("mat"), 1);
    assert_eq!(counts.count("ran"), 1);
    assert_eq!(counts.count("The"), 0);
    assert_eq!(counts.count("mat."), 0);
    let stats = summarize(&counts);
    assert_eq!(stats.total_words, 9);
    assert_eq!(stats.unique_words, 6);
    assert_eq!(stats.most_common, Some(("the".to_string(), 3)));
}

#[test]
fn sample_with_min_length_three() {
    let options = parse_options(&args(&["wordfreq", "sample.txt", "--min-length", "3"])).unwrap();
    assert_eq!(options.min_length, Some(3));
    let stats = analyze(SAMPLE, &options);
    assert_eq!(stats.total_words, 0);
    assert_eq!(stats.unique_words, 0);
    assert_eq!(stats.most_common, None);
}

#[test]
fn sample_with_starts_with_capital_c() {
    let options = parse_options(&args(&["wordfreq", "sample.txt", "--starts-with", "C"])).unwrap();
    assert_eq!(options.starts_with, Some('C'));
    let stats = analyze(SAMPLE, &options);
    assert_eq!(stats.total_words, 2);
    assert_eq!(stats.unique_words, 1);
    assert_eq!(stats.most_common, Some(("cat".to_string(), 2)));
}

#[test]
fn sample_with_both_flags() {
    let options = parse_options(&args(&[
        "wordfreq",
        "sample.txt",
        "--starts-with",
        "t",
        "--min-length",
        "2",
    ]))
    .unwrap();
    let stats = analyze(SAMPLE, &options);
    assert_eq!(stats.total_words, 3);
    assert_eq!(stats.unique_words, 1);
    assert_eq!(stats.most_common, Some(("the".to_string(), 3)));
}

#[test]
fn missing_file_path_prints_usage_only() {
    let result = parse_options(&args(&["wordfreq"]));
    assert_eq!(result, Err(CliError::Usage));
    let outcome = conclude(result.map(|_| String::new()));
    assert_eq!(outcome.stdout, "");
    assert_eq!(
        outcome.stderr,
        "Usage: wordfreq <file_path> [--min-length N] [--starts-with C]\n"
    );
    assert_eq!(outcome.exit_code, 1);
}

#[test]
fn no_arguments_at_all_is_a_usage_error() {
    assert_eq!(parse_options(&[]), Err(CliError::Usage));
}

#[test]
fn min_length_without_value_is_reported() {
    let result = parse_options(&args(&["wordfreq", "sample.txt", "--min-length"]));
    assert_eq!(result, Err(CliError::MissingFlagValue { flag: "--min-length".to_string() }));
    let outcome = conclude(result.map(|_| String::new()));
    assert_eq!(outcome.stdout, "");
    assert_eq!(
        outcome.stderr,
        "Error: Flag '--min-length' was provided but no value followed it\n"
    );
    assert_eq!(outcome.exit_code, 1);
}

#[test]
fn starts_with_without_value_is_reported() {
    let result = parse_options(&args(&["wordfreq", "sample.txt", "--starts-with"]));
    assert_eq!(result, Err(CliError::MissingFlagValue { flag: "--starts-with".to_string() }));
    assert_eq!(
        result.unwrap_err().message(),
        "Error: Flag '--starts-with' was provided but no value followed it"
    );
}

#[test]
fn min_length_that_is_no_number_is_reported() {
    let result = parse_options(&args(&["wordfreq", "sample.txt", "--min-length", "abc"]));
    assert_eq!(result, Err(CliError::InvalidFlagValue));
    let outcome = conclude(result.map(|_| String::new()));
    assert_eq!(outcome.stdout, "");
    assert_eq!(outcome.stderr, "Error: --min-length requires a valid positive number\n");
    assert_eq!(outcome.exit_code, 1);
}

#[test]
fn negative_min_length_is_reported() {
    let result = parse_options(&args(&["wordfreq", "sample.txt", "--min-length", "-1"]));
    assert_eq!(result, Err(CliError::InvalidFlagValue));
}

#[test]
fn min_length_failure_comes_before_starts_with_failure() {
    let result = parse_options(&args(&["wordfreq", "f", "--min-length", "x", "--starts-with"]));
    assert_eq!(result, Err(CliError::InvalidFlagValue));
    let result = parse_options(&args(&["wordfreq", "f", "--starts-with", "--min-length"]));
    assert_eq!(result, Err(CliError::MissingFlagValue { flag: "--min-length".to_string() }));
}

#[test]
fn unreadable_file_is_reported_with_path_and_reason() {
    let options = parse_options(&args(&["wordfreq", "missing.txt"])).unwrap();
    let result = report_for(&options, Err("No such file or directory (os error 2)".to_string()));
    assert_eq!(
        result,
        Err(CliError::FileRead {
            path: "missing.txt".to_string(),
            reason: "No such file or directory (os error 2)".to_string(),
        })
    );
    let outcome = conclude(result);
    assert_eq!(outcome.stdout, "");
    assert_eq!(
        outcome.stderr,
        "Failed to read file 'missing.txt': No such file or directory (os error 2)\n"
    );
    assert_eq!(outcome.exit_code, 1);
}

#[test]
fn every_failure_exits_with_one() {
    let failures = vec![
        CliError::Usage,
        CliError::MissingFlagValue { flag: "--min-length".to_string() },
        CliError::InvalidFlagValue,
        CliError::FileRead { path: "p".to_string(), reason: "r".to_string() },
    ];
    for failure in failures {
        assert_eq!(failure.exit_code(), 1);
        assert!(!failure.message().contains('\n'));
    }
}

#[test]
fn successful_run_prints_the_report_and_exits_with_zero() {
    let options = parse_options(&args(&["wordfreq", "sample.txt"])).unwrap();
    let outcome = conclude(report_for(&options, Ok(SAMPLE.to_string())));
    assert_eq!(
        outcome.stdout,
        "--- Word Frequency Stats ---\nTotal words:   9\nUnique words:  6\nMost common:   'the' (3)\n"
    );
    assert_eq!(outcome.stderr, "");
    assert_eq!(outcome.exit_code, 0);
}

#[test]
fn report_without_words_shows_the_placeholder() {
    let options = parse_options(&args(&["wordfreq", "sample.txt", "--min-length", "3"])).unwrap();
    let report = report_for(&options, Ok(SAMPLE.to_string())).unwrap();
    assert_eq!(
        report,
        "--- Word Frequency Stats ---\nTotal words:   0\nUnique words:  0\nMost common:   (none)\n"
    );
}

#[test]
fn report_renders_given_statistics() {
    let stats = Stats {
        total_words: 1200,
        unique_words: 45,
        most_common: Some(("don't".to_string(), 107)),
    };
    assert_eq!(
        render_report(&stats),
        "--- Word Frequency Stats ---\nTotal words:   1200\nUnique words:  45\nMost common:   'don't' (107)\n"
    );
}

#[test]
fn empty_text_counts_nothing() {
    let counts = count_words("", None, None);
    assert_eq!(counts.total(), 0);
    assert_eq!(counts.unique(), 0);
    assert_eq!(counts.most_common(), None);
    let blank = count_words(" \t\n  \u{3000} ", None, None);
    assert_eq!(blank.total(), 0);
    let marks = count_words("... --- !!! ' \"", None, None);
    assert_eq!(marks.total(), 0);
    assert_eq!(marks.unique(), 0);
}

#[test]
fn total_is_the_sum_of_the_counts() {
    let text = "a b a c b a d e e e e";
    let counts = count_words(text, None, None);
    let words = ["a", "b", "c", "d", "e"];
    let sum: usize = words.iter().map(|w| counts.count(w)).sum();
    let stats = summarize(&counts);
    assert_eq!(stats.total_words, sum);
    assert_eq!(stats.total_words, 11);
    assert_eq!(stats.unique_words, words.len());
    assert_eq!(stats.most_common, Some(("e".to_string(), 4)));
}

#[test]
fn two_runs_on_the_same_input_agree() {
    let text = "x y z x y z z y x q";
    let first = count_words(text, Some(0), Some('x'));
    let second = count_words(text, Some(0), Some('x'));
    for word in ["x", "y", "z", "q", "w"] {
        assert_eq!(first.count(word), second.count(word));
    }
    assert_eq!(summarize(&first), summarize(&second));
    let all_first = summarize(&count_words(text, None, None));
    let all_second = summarize(&count_words(text, None, None));
    assert_eq!(all_first, all_second);
    assert_eq!(all_first.most_common, Some(("x".to_string(), 3)));
}

#[test]
fn ties_go_to_the_word_seen_first() {
    let stats = summarize(&count_words("b a a b c", None, None));
    assert_eq!(stats.most_common, Some(("b".to_string(), 2)));
    let stats = summarize(&count_words("a b b a c", None, None));
    assert_eq!(stats.most_common, Some(("a".to_string(), 2)));
    let stats = summarize(&count_words("a b b a b", None, None));
    assert_eq!(stats.most_common, Some(("b".to_string(), 3)));
}

#[test]
fn min_length_never_counts_more() {
    let text = "I am the very model of a modern major-general, I've information vegetable";
    for start in [None, Some('m'), Some('I'), Some('v')] {
        let without = summarize(&count_words(text, None, start));
        for n in 0..14 {
            let with = summarize(&count_words(text, Some(n), start));
            assert!(with.total_words <= without.total_words);
            assert!(with.unique_words <= without.unique_words);
        }
    }
    assert_eq!(summarize(&count_words(text, Some(4), None)).total_words, 5);
    assert_eq!(summarize(&count_words(text, None, None)).total_words, 12);
}

#[test]
fn min_length_zero_keeps_single_characters() {
    let text = "a I x 1 . ! go";
    let with = summarize(&count_words(text, Some(0), None));
    let without = summarize(&count_words(text, None, None));
    assert_eq!(with, without);
    assert_eq!(with.total_words, 5);
    let one = summarize(&count_words(text, Some(1), None));
    assert_eq!(one.total_words, 1);
    assert_eq!(one.most_common, Some(("go".to_string(), 1)));
}

#[test]
fn table_counts_each_addition() {
    let mut counts = WordCounts::new();
    assert_eq!(counts.total(), 0);
    assert_eq!(counts.unique(), 0);
    assert_eq!(counts.most_common(), None);
    counts.add("pear".to_string());
    counts.add("fig".to_string());
    counts.add("fig".to_string());
    counts.add("pear".to_string());
    counts.add("fig".to_string());
    assert_eq!(counts.count("fig"), 3);
    assert_eq!(counts.count("pear"), 2);
    assert_eq!(counts.count("plum"), 0);
    assert_eq!(counts.total(), 5);
    assert_eq!(counts.unique(), 2);
    assert_eq!(counts.most_common(), Some(("fig".to_string(), 3)));
}
