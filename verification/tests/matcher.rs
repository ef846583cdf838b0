use retread::launch::{load_settings, ConfigError, ConfigValue};
use retread::log_search::{best_match_in_file, search_files, LogLineSearch, ParseError, Searcher};
use retread::pattern::LogPattern;
use retread::score::token_lcs;
use retread::text::{basename, contains_str, parse_line_number, split_lines, str_eq, trim};

fn pat(text: &str) -> LogPattern {
    LogPattern::new(text).expect("pattern should compile")
}

#[test]
fn parse_with_all_fields() {
    let p = pat("\\[(?P<file>[^:]+):(?P<line>\\d+)\\] (?P<message>.*)$");
    let s = LogLineSearch::new(&p, "[kernel/sched.c:42] scheduled task 7").unwrap();
    assert_eq!(s.message, "scheduled task 7");
    assert_eq!(s.file.as_deref(), Some("kernel/sched.c"));
    assert_eq!(s.line, Some(42));
    assert!(s.func.is_none());
}

#[test]
fn token_lcs_example() {
    let haystack = "log!(\"This is a log message: {:x}\", beef_variable);";
    let needle = "This is a log message: 0xbeef";
    assert_eq!(token_lcs(haystack, needle), 17);
}

#[test]
fn token_lcs_symmetric() {
    let a = "foo bar baz quux";
    let b = "baz foo something";
    assert_eq!(token_lcs(a, b), token_lcs(b, a));
}

#[test]
fn token_lcs_monotone_under_appended_tokens() {
    let n = "foo baz";
    assert_eq!(token_lcs("foo bar", n), 3);
    assert!(token_lcs("foo bar baz", n) >= token_lcs("foo bar", n));
    assert_eq!(token_lcs("foo bar baz", n), 6);
}

#[test]
fn token_lcs_strips_non_ascii() {
    // The non-ASCII character is removed before splitting, fusing one token.
    assert_eq!(token_lcs("fooébar", "foobar"), 6);
}

#[test]
fn file_gated_matching() {
    let p = pat("(?P<file>[^:]*):(?P<message>.*)$");
    let corpus = vec![
        ("a.c".to_string(), "foo bar baz".to_string()),
        ("b.c".to_string(), "foo bar baz".to_string()),
    ];
    let m = search_files(&corpus, &p, "b.c:foo").expect("should match");
    assert_eq!(m.file, "b.c");
    assert_eq!(m.line, 1);
    assert_eq!(m.score, 3);
    // Without a file hint, ties break to the first corpus entry.
    let p2 = pat("(?P<message>.*)$");
    let m2 = search_files(&corpus, &p2, "foo").expect("should match");
    assert_eq!(m2.file, "a.c");
    assert_eq!(m2.line, 1);
    assert_eq!(m2.score, 3);
}

#[test]
fn best_match_ties_break_to_lowest_line() {
    let s = LogLineSearch {
        message: "foo".to_string(),
        func: None,
        file: None,
        line: None,
    };
    let m = best_match_in_file("x\nfoo\nfoo", "f.c", &s).unwrap();
    assert_eq!(m.line, 2);
    assert_eq!(m.score, 3);
}

#[test]
fn best_match_empty_file_is_none() {
    let s = LogLineSearch {
        message: "foo".to_string(),
        func: None,
        file: None,
        line: None,
    };
    assert!(best_match_in_file("", "f.c", &s).is_none());
}

#[test]
fn best_match_func_gate() {
    let s = LogLineSearch {
        message: "foo".to_string(),
        func: Some("schedule".to_string()),
        file: None,
        line: None,
    };
    assert!(best_match_in_file("foo bar", "f.c", &s).is_none());
    let m = best_match_in_file("int schedule() {\nfoo bar\n}", "f.c", &s).unwrap();
    assert_eq!(m.line, 2);
}

#[test]
fn best_match_pinned_line_keeps_zero_score() {
    let s = LogLineSearch {
        message: "foo".to_string(),
        func: None,
        file: None,
        line: Some(1),
    };
    let m = best_match_in_file("bar\nfoo", "f.c", &s).unwrap();
    assert_eq!(m.line, 1);
    assert_eq!(m.score, 0);
    let out_of_range = LogLineSearch { line: Some(3), ..s };
    assert!(best_match_in_file("bar\nfoo", "f.c", &out_of_range).is_none());
}

#[test]
fn parse_error_unparsable_line() {
    let p = pat("^abc(?P<message>.*)$");
    let e = LogLineSearch::new(&p, "xyz").unwrap_err();
    assert_eq!(e, ParseError::UnparsableLogLine);
}

#[test]
fn parse_error_missing_message_group() {
    let p = pat("(?P<file>.*)");
    let e = LogLineSearch::new(&p, "whatever").unwrap_err();
    assert_eq!(e, ParseError::MissingMessageGroup);
}

#[test]
fn parse_error_bad_line_number() {
    let p = pat("(?P<message>[a-z]+):(?P<line>.*)$");
    assert_eq!(
        LogLineSearch::new(&p, "msg:abc").unwrap_err(),
        ParseError::BadLineNumber
    );
    assert_eq!(
        LogLineSearch::new(&p, "msg:0").unwrap_err(),
        ParseError::BadLineNumber
    );
    assert_eq!(
        LogLineSearch::new(&p, "msg:99999999999999999999999").unwrap_err(),
        ParseError::BadLineNumber
    );
    let ok = LogLineSearch::new(&p, "msg:0042").unwrap();
    assert_eq!(ok.line, Some(42));
}

#[test]
fn parse_trims_captured_fields() {
    let p = pat("^(?P<message>.*)$");
    let s = LogLineSearch::new(&p, "  hello world  ").unwrap();
    assert_eq!(s.message, "hello world");
}

#[test]
fn pattern_compilation() {
    assert!(LogPattern::new("(").is_none());
    let p = pat("a(?P<message>b)c");
    assert_eq!(p.text(), "a(?P<message>b)c");
}

#[test]
fn searcher_memoized_search_is_stable() {
    let p = pat("(?P<message>.*)$");
    let corpus = vec![("f.c".to_string(), "alpha beta\ngamma".to_string())];
    let searcher = Searcher::new(p, corpus);
    let m1 = searcher.search("alpha beta").expect("should match");
    let m2 = searcher.search("alpha beta").expect("should match");
    assert_eq!(m1.file, m2.file);
    assert_eq!(m1.line, m2.line);
    assert_eq!(m1.score, m2.score);
    assert_eq!(m1.file, "f.c");
    assert_eq!(m1.line, 1);
    assert_eq!(m1.score, 9);
    // An unparsable line yields no match and is memoized the same way.
    let p2 = pat("^x(?P<message>.*)$");
    let searcher2 = Searcher::new(p2, vec![("f.c".to_string(), "alpha".to_string())]);
    assert!(searcher2.search("alpha").is_none());
    assert!(searcher2.search("alpha").is_none());
}

#[test]
fn load_settings_happy_path() {
    let data = Some(ConfigValue::Object(vec![
        (
            "log_file".to_string(),
            ConfigValue::Str("./linux.log".to_string()),
        ),
        (
            "log_pattern".to_string(),
            ConfigValue::Str("(?P<message>.*)$".to_string()),
        ),
        (
            "sources".to_string(),
            ConfigValue::Array(vec![ConfigValue::Str("./linux/**/*.c".to_string())]),
        ),
        (
            "exclude".to_string(),
            ConfigValue::Array(vec![]),
        ),
    ]));
    let cfg = load_settings(&data).unwrap();
    assert_eq!(cfg.log_file_name, "./linux.log");
    assert_eq!(cfg.pattern_text, "(?P<message>.*)$");
    assert_eq!(cfg.sources, vec!["./linux/**/*.c".to_string()]);
    assert!(cfg.exclude.is_empty());
}

#[test]
fn load_settings_accepts_single_string_glob() {
    let data = Some(ConfigValue::Object(vec![
        ("log_file".to_string(), ConfigValue::Str("l".to_string())),
        ("log_pattern".to_string(), ConfigValue::Str("p".to_string())),
        ("sources".to_string(), ConfigValue::Str("./src/*.c".to_string())),
        ("exclude".to_string(), ConfigValue::Array(vec![])),
    ]));
    let cfg = load_settings(&data).unwrap();
    assert_eq!(cfg.sources, vec!["./src/*.c".to_string()]);
}

#[test]
fn load_settings_errors_name_the_field() {
    assert_eq!(
        load_settings(&None).unwrap_err(),
        ConfigError::NoAdditionalData
    );
    assert_eq!(
        load_settings(&Some(ConfigValue::Object(vec![]))).unwrap_err(),
        ConfigError::MissingLogFile
    );
    let bad_log_file = Some(ConfigValue::Object(vec![(
        "log_file".to_string(),
        ConfigValue::Num(3),
    )]));
    assert_eq!(
        load_settings(&bad_log_file).unwrap_err(),
        ConfigError::LogFileNotString
    );
    let missing_pattern = Some(ConfigValue::Object(vec![(
        "log_file".to_string(),
        ConfigValue::Str("l".to_string()),
    )]));
    assert_eq!(
        load_settings(&missing_pattern).unwrap_err(),
        ConfigError::MissingLogPattern
    );
    let bad_sources = Some(ConfigValue::Object(vec![
        ("log_file".to_string(), ConfigValue::Str("l".to_string())),
        ("log_pattern".to_string(), ConfigValue::Str("p".to_string())),
        (
            "sources".to_string(),
            ConfigValue::Array(vec![ConfigValue::Num(1)]),
        ),
    ]));
    assert_eq!(
        load_settings(&bad_sources).unwrap_err(),
        ConfigError::SourcesNotValid
    );
    let missing_exclude = Some(ConfigValue::Object(vec![
        ("log_file".to_string(), ConfigValue::Str("l".to_string())),
        ("log_pattern".to_string(), ConfigValue::Str("p".to_string())),
        ("sources".to_string(), ConfigValue::Array(vec![])),
    ]));
    assert_eq!(
        load_settings(&missing_exclude).unwrap_err(),
        ConfigError::MissingExclude
    );
    assert_eq!(
        ConfigError::MissingLogFile.message(),
        "Missing log file".to_string()
    );
}

#[test]
fn subtract_paths_removes_excluded_in_order() {
    let paths = vec![
        "a.c".to_string(),
        "b.c".to_string(),
        "c.c".to_string(),
        "b.c".to_string(),
    ];
    let excluded = vec!["b.c".to_string(), "missing.c".to_string()];
    let kept = retread::launch::subtract_paths(paths, &excluded);
    assert_eq!(kept, vec!["a.c".to_string(), "c.c".to_string()]);
    let none_excluded = retread::launch::subtract_paths(
        vec!["x.c".to_string()],
        &Vec::new(),
    );
    assert_eq!(none_excluded, vec!["x.c".to_string()]);
}

#[test]
fn text_utilities() {
    assert_eq!(trim("  a b \t"), "a b");
    assert_eq!(trim("ab"), "ab");
    assert_eq!(trim("  "), "");
    for s in ["\u{a0}x\u{2003}", " mixed\u{85}", "\r\nend\r\n", "no ws"] {
        assert_eq!(trim(s), s.trim(), "trimming {:?}", s);
    }
    assert_eq!(parse_line_number("18446744073709551615"), Some(usize::MAX));
    assert_eq!(parse_line_number("18446744073709551616"), None);
    assert_eq!(parse_line_number("42"), Some(42));
    assert_eq!(parse_line_number("007"), Some(7));
    assert_eq!(parse_line_number("0"), None);
    assert_eq!(parse_line_number(""), None);
    assert_eq!(parse_line_number("4x2"), None);
    assert_eq!(parse_line_number("99999999999999999999999"), None);
    assert!(contains_str("hello world", "lo wo"));
    assert!(!contains_str("hello", "world"));
    assert!(contains_str("abc", ""));
    assert_eq!(basename("a/b/c.rs"), "c.rs");
    assert_eq!(basename("c.rs"), "c.rs");
    assert_eq!(basename("a/"), "");
    assert!(str_eq("abc", "abc"));
    assert!(!str_eq("abc", "abd"));
}

#[test]
fn split_lines_matches_str_lines() {
    for text in [
        "a\nb\nc",
        "a\r\nb\nc\n",
        "",
        "\n",
        "a\n\nb",
        "ends with cr\r",
        "one line",
    ] {
        let got: Vec<String> = split_lines(text);
        let want: Vec<String> = text.lines().map(|l| l.to_string()).collect();
        assert_eq!(got, want, "splitting {:?}", text);
    }
}
