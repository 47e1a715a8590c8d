use wordfreq::args::get_flag_value;
use wordfreq::args::parse_options;
use wordfreq::error::missing_value_message;
use wordfreq::filter::{build_filter, first_char_or, word_passes};
use wordfreq::normalize::{normalize_word, trim_bounds};
use wordfreq::number::{decimal_string, parse_count};
use wordfreq::text::{append_chars, chars_of};
use wordfreq::tokens::{tokenize, Splitter};

fn strings(list: &[&str]) -> Vec<String> {
    list.iter().map(|s| s.to_string()).collect()
}

#[test]
fn normalize_strips_and_lowercases() {
    assert_eq!(normalize_word("The"), "the");
    assert_eq!(normalize_word("mat."), "mat");
    assert_eq!(normalize_word("\"Hello,\""), "hello");
    assert_eq!(normalize_word("--WORLD!!"), "world");
    assert_eq!(normalize_word("(42)"), "42");
    assert_eq!(normalize_word("x"), "x");
}

#[test]
fn normalize_keeps_inner_punctuation() {
    assert_eq!(normalize_word("Don't"), "don't");
    assert_eq!(normalize_word("'tis"), "tis");
    assert_eq!(normalize_word("major-general,"), "major-general");
    assert_eq!(normalize_word("a.b.c."), "a.b.c");
}

#[test]
fn normalize_of_pure_punctuation_is_empty() {
    assert_eq!(normalize_word(""), "");
    assert_eq!(normalize_word("..."), "");
    assert_eq!(normalize_word("-"), "");
    assert_eq!(normalize_word("?!"), "");
}

#[test]
fn normalize_handles_letters_beyond_ascii() {
    assert_eq!(normalize_word("\u{c9}COLE!"), "\u{e9}cole");
    assert_eq!(normalize_word("\u{ab}\u{c4}rger\u{bb}"), "\u{e4}rger");
    assert_eq!(normalize_word("\u{2014}\u{416}\u{2014}"), "\u{436}");
    assert_eq!(normalize_word("\u{663}\u{664}"), "\u{663}\u{664}");
}

#[test]
fn normalize_lowercases_each_character_by_itself() {
    assert_eq!(normalize_word("\u{39f}\u{394}\u{39f}\u{3a3}"), "\u{3bf}\u{3b4}\u{3bf}\u{3c3}");
    assert_eq!(normalize_word("\u{130}stanbul"), "i\u{307}stanbul");
}

#[test]
fn normalize_agrees_with_trimming_and_lowercasing_by_hand() {
    let samples = [
        "Hello", "..a..", "A1b2C3", "\u{1e9e}", "\u{130}", "x\u{130}", "'", "  ", "_x_", "\u{41}\u{300}",
        "CAF\u{c9}.", "\u{1c5}", "#tag", "@", "e-mail", "\u{2167}", "\u{ff21}\u{ff22}",
    ];
    for sample in samples {
        let by_hand: String = sample
            .trim_matches(|c: char| !c.is_alphanumeric())
            .chars()
            .flat_map(|c| c.to_lowercase())
            .collect();
        assert_eq!(normalize_word(sample), by_hand, "for {:?}", sample);
    }
}

#[test]
fn normalizing_twice_changes_nothing_for_ordinary_words() {
    let samples = ["The", "mat.", "Don't", "\u{c9}COLE!", "(42)", "...", "", "a.b.c.", "\u{416}"];
    for sample in samples {
        let once = normalize_word(sample);
        let twice = normalize_word(&once);
        assert_eq!(once, twice, "for {:?}", sample);
    }
}

#[test]
fn normalizing_twice_differs_where_lowercasing_ends_in_a_mark() {
    let once = normalize_word("\u{130}");
    assert_eq!(once, "i\u{307}");
    assert_eq!(normalize_word(&once), "i");
}

#[test]
fn chars_of_lists_every_character() {
    assert_eq!(chars_of(""), Vec::<char>::new());
    assert_eq!(chars_of("a\u{e9}\u{1f600}z"), vec!['a', '\u{e9}', '\u{1f600}', 'z']);
}

#[test]
fn tokenize_splits_at_runs_of_whitespace() {
    assert_eq!(tokenize("The cat sat"), strings(&["The", "cat", "sat"]));
    assert_eq!(tokenize("  a \t\tb\n\nc  "), strings(&["a", "b", "c"]));
    assert_eq!(tokenize("one"), strings(&["one"]));
    assert_eq!(tokenize(""), Vec::<String>::new());
    assert_eq!(tokenize(" \n\t "), Vec::<String>::new());
    assert_eq!(tokenize("a,b ; c"), strings(&["a,b", ";", "c"]));
}

#[test]
fn tokenize_knows_unicode_whitespace() {
    assert_eq!(tokenize("a\u{a0}b\u{2003}c\u{3000}d\u{85}e"), strings(&["a", "b", "c", "d", "e"]));
    assert_eq!(tokenize("a\u{200b}b"), strings(&["a\u{200b}b"]));
}

#[test]
fn tokenize_agrees_with_the_standard_split() {
    let samples = [
        "The cat sat on the mat. The cat ran.",
        "",
        " ",
        "x",
        " x",
        "x ",
        "\u{2028}line\u{2029}para\u{1680}ogham",
        "tabs\tand\r\nnewlines\u{b}\u{c}",
        "  many   spaces   here  ",
    ];
    for sample in samples {
        let expected: Vec<String> = sample.split_whitespace().map(|s| s.to_string()).collect();
        assert_eq!(tokenize(sample), expected, "for {:?}", sample);
    }
}

#[test]
fn filter_without_options_keeps_everything() {
    let filter = build_filter(None, None);
    assert!(filter(&"a".to_string()));
    assert!(filter(&"anything".to_string()));
    assert!(filter(&String::new()));
}

#[test]
fn filter_length_bound_is_strict() {
    let filter = build_filter(Some(3), None);
    assert!(!filter(&"the".to_string()));
    assert!(!filter(&"on".to_string()));
    assert!(filter(&"that".to_string()));
    assert!(!filter(&String::new()));
    let zero = build_filter(Some(0), None);
    assert!(zero(&"a".to_string()));
    assert!(!zero(&String::new()));
}

#[test]
fn filter_length_is_counted_in_bytes() {
    let filter = build_filter(Some(3), None);
    assert!(filter(&"\u{e9}t\u{e9}".to_string()));
    assert!(!filter(&"\u{e9}t".to_string()));
    let four = build_filter(Some(4), None);
    assert!(!four(&"\u{1f600}".to_string()));
    assert!(four(&"\u{1f600}a".to_string()));
}

#[test]
fn filter_first_character_ignores_the_case_of_the_option() {
    let upper = build_filter(None, Some('C'));
    let lower = build_filter(None, Some('c'));
    for filter in [&upper, &lower] {
        assert!(filter(&"cat".to_string()));
        assert!(filter(&"c".to_string()));
        assert!(!filter(&"act".to_string()));
        assert!(!filter(&String::new()));
    }
    assert!(!upper(&"Cat".to_string()));
    let accented = build_filter(None, Some('\u{c9}'));
    assert!(accented(&"\u{e9}cole".to_string()));
    assert!(!accented(&"ecole".to_string()));
    let dotted = build_filter(None, Some('\u{130}'));
    assert!(dotted(&"i\u{307}stanbul".to_string()));
    assert!(dotted(&"ice".to_string()));
}

#[test]
fn filter_needs_both_conditions() {
    let filter = build_filter(Some(3), Some('t'));
    assert!(filter(&"that".to_string()));
    assert!(!filter(&"the".to_string()));
    assert!(!filter(&"what".to_string()));
    assert!(!filter(&"a".to_string()));
}

#[test]
fn flag_value_follows_the_first_match() {
    let args = strings(&["wordfreq", "f.txt", "--min-length", "4", "--min-length", "9"]);
    assert_eq!(get_flag_value(&args, "--min-length"), Ok(Some("4".to_string())));
    assert_eq!(get_flag_value(&args, "--starts-with"), Ok(None));
    assert_eq!(get_flag_value(&args, "f.txt"), Ok(Some("--min-length".to_string())));
    assert_eq!(get_flag_value(&args, "--min"), Ok(None));
    assert_eq!(get_flag_value(&[], "--min-length"), Ok(None));
}

#[test]
fn flag_value_may_look_like_a_flag() {
    let args = strings(&["wordfreq", "f.txt", "--starts-with", "--min-length"]);
    assert_eq!(get_flag_value(&args, "--starts-with"), Ok(Some("--min-length".to_string())));
    assert_eq!(
        get_flag_value(&args, "--min-length"),
        Err("Flag '--min-length' was provided but no value followed it".to_string())
    );
}

#[test]
fn flag_as_last_argument_has_no_value() {
    let args = strings(&["wordfreq", "f.txt", "--starts-with"]);
    assert_eq!(
        get_flag_value(&args, "--starts-with"),
        Err("Flag '--starts-with' was provided but no value followed it".to_string())
    );
    assert_eq!(
        missing_value_message("-x"),
        "Flag '-x' was provided but no value followed it"
    );
}

#[test]
fn options_hold_what_was_asked_for() {
    let args = strings(&["wordfreq", "notes.txt", "--starts-with", "Tree", "--min-length", "007"]);
    let options = parse_options(&args).unwrap();
    assert_eq!(options.file_path, "notes.txt");
    assert_eq!(options.min_length, Some(7));
    assert_eq!(options.starts_with, Some('T'));
    let plain = parse_options(&strings(&["wordfreq", "notes.txt"])).unwrap();
    assert_eq!(plain.file_path, "notes.txt");
    assert_eq!(plain.min_length, None);
    assert_eq!(plain.starts_with, None);
}

#[test]
fn options_take_an_empty_first_character_as_none() {
    let args = strings(&["wordfreq", "notes.txt", "--starts-with", ""]);
    let options = parse_options(&args).unwrap();
    assert_eq!(options.starts_with, None);
}

#[test]
fn options_take_a_flag_as_the_path_when_it_comes_first() {
    let args = strings(&["wordfreq", "--starts-with", "q"]);
    let options = parse_options(&args).unwrap();
    assert_eq!(options.file_path, "--starts-with");
    assert_eq!(options.starts_with, Some('q'));
}

#[test]
fn counts_are_read_as_the_standard_library_reads_them() {
    let samples = [
        "0", "1", "9", "10", "42", "007", "+5", "+0", "+", "", "-", "-0", "-1", "++1", "+-1", "1+", " 1",
        "1 ", "1_000", "0x10", "abc", "12a", "a12", "\u{661}\u{662}", "\u{ff11}", "4294967295", "4294967296",
        "18446744073709551615", "18446744073709551616", "99999999999999999999999999", "000000000000000000000000001",
        "1.5", "1e3",
    ];
    for sample in samples {
        assert_eq!(parse_count(sample), sample.parse::<usize>().ok(), "for {:?}", sample);
    }
    assert_eq!(parse_count("42"), Some(42));
    assert_eq!(parse_count("+5"), Some(5));
    assert_eq!(parse_count("abc"), None);
}

#[test]
fn counts_are_written_in_decimal() {
    assert_eq!(decimal_string(0), "0");
    assert_eq!(decimal_string(7), "7");
    assert_eq!(decimal_string(10), "10");
    assert_eq!(decimal_string(1200), "1200");
    assert_eq!(decimal_string(usize::MAX), usize::MAX.to_string());
    for n in [0usize, 1, 9, 10, 11, 99, 100, 101, 65535, 1 << 31, usize::MAX] {
        assert_eq!(parse_count(&decimal_string(n)), Some(n));
    }
}

#[test]
fn trim_bounds_span_from_first_to_last_kept() {
    assert_eq!(trim_bounds(&[false, true, false, true, false]), (1, 4));
    assert_eq!(trim_bounds(&[true, true, true]), (0, 3));
    assert_eq!(trim_bounds(&[false, false, true]), (2, 3));
    assert_eq!(trim_bounds(&[true, false, false]), (0, 1));
    assert_eq!(trim_bounds(&[true]), (0, 1));
}

#[test]
fn trim_bounds_are_empty_without_anything_kept() {
    assert_eq!(trim_bounds(&[]), (0, 0));
    assert_eq!(trim_bounds(&[false]), (0, 0));
    assert_eq!(trim_bounds(&[false, false, false]), (0, 0));
}

#[test]
fn append_chars_adds_at_the_end() {
    let mut out = String::from("ab");
    append_chars(&mut out, &['c', '\u{e9}']);
    assert_eq!(out, "abc\u{e9}");
    append_chars(&mut out, &[]);
    assert_eq!(out, "abc\u{e9}");
}

#[test]
fn splitter_closes_a_run_at_each_separator() {
    let mut splitter = Splitter::new();
    for (c, is_separator) in [
        ('-', true),
        ('a', false),
        ('b', false),
        ('-', true),
        ('-', true),
        (' ', false),
        ('c', false),
    ] {
        splitter.push(c, is_separator);
    }
    assert_eq!(splitter.finish(), strings(&["ab", " c"]));
}

#[test]
fn splitter_without_input_has_no_runs() {
    assert_eq!(Splitter::new().finish(), Vec::<String>::new());
    let mut splitter = Splitter::new();
    splitter.push('x', true);
    splitter.push('y', true);
    assert_eq!(splitter.finish(), Vec::<String>::new());
}

#[test]
fn word_passes_tests_length_and_first_character() {
    assert!(word_passes("that", Some(3), Some('t')));
    assert!(!word_passes("the", Some(3), Some('t')));
    assert!(!word_passes("what", Some(3), Some('t')));
    assert!(word_passes("", None, None));
    assert!(!word_passes("", Some(0), None));
    assert!(!word_passes("", None, Some('a')));
    assert!(word_passes("That", None, Some('T')));
    assert!(!word_passes("That", None, Some('t')));
}

#[test]
fn first_char_or_falls_back_on_nothing() {
    assert_eq!(first_char_or(&['i', '\u{307}'], '\u{130}'), 'i');
    assert_eq!(first_char_or(&[], 'q'), 'q');
}
