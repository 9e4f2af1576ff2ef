use fmd::date::{insert_date, Date};
use fmd::exclude::{is_excluded_dir, should_skip};
use fmd::filters::{
    file_matches, matches_filename, should_include_file_by_content, Args, CompiledFilters,
    FilterError, FilterErrorKind,
};
use fmd::frontmatter::{extract_frontmatter, Frontmatter, TagValue};
use fmd::metadata::Metadata;
use fmd::reader::{
    bounded_content, read_file_content, HeadReader, ReadError, ReadStep, DEFAULT_HEAD_LINES,
    MAX_FRONTMATTER_LINES,
};
use fmd::text::{
    chars_of, contains, eq_ignore_ascii_case, find_char, is_whitespace, join_lines, split_lines,
    trim, trim_start,
};
use fmd::yaml::{duplicate_value, YamlValue};

fn chars(s: &str) -> Vec<char> {
    s.chars().collect()
}

fn text(v: &Vec<char>) -> String {
    v.iter().collect()
}

fn no_args() -> Args {
    Args {
        nul: false,
        ignore_case: false,
        depth: None,
        tags: vec![],
        titles: vec![],
        authors: vec![],
        names: vec![],
        fields: vec![],
        glob: "**/*.md".to_string(),
        head_lines: DEFAULT_HEAD_LINES,
        full_text: false,
        verbose: false,
        date_after: None,
        date_before: None,
        dirs: vec![".".to_string()],
    }
}

fn no_filters() -> CompiledFilters {
    CompiledFilters {
        tag_patterns: vec![],
        title_patterns: vec![],
        author_patterns: vec![],
        name_patterns: vec![],
        field_patterns: vec![],
        date_after: None,
        date_before: None,
    }
}

fn metadata_of(content: &str) -> Metadata {
    Metadata::from_content(content.to_string())
}

fn fault_of(args: &Args) -> FilterError {
    match CompiledFilters::from_args(args) {
        Ok(_) => panic!("the filters were built"),
        Err(e) => e,
    }
}

#[test]
fn lines_end_at_line_feeds_and_drop_carriage_returns() {
    let lines = split_lines(&chars("a\r\nb\n\nc\r"));
    let got: Vec<String> = lines.iter().map(text).collect();
    assert_eq!(got, vec!["a", "b", "", "c\r"]);
    assert_eq!(split_lines(&chars("")).len(), 0);
    assert_eq!(split_lines(&chars("\n")).len(), 1);
    assert_eq!(split_lines(&chars("x\n")).len(), 1);
    assert_eq!(split_lines(&chars("x\ny")).len(), 2);
}

#[test]
fn lines_agree_with_the_standard_library() {
    for sample in ["", "a", "a\n", "\n\n", "a\r\n\r\nb", "a\rb\n", "---\n  x: 1\r\n---", "\r"] {
        let expected: Vec<String> = sample.lines().map(|l| l.to_string()).collect();
        let got: Vec<String> = split_lines(&chars(sample)).iter().map(text).collect();
        assert_eq!(got, expected);
    }
}

#[test]
fn joined_lines_have_a_line_feed_between_them() {
    let lines = vec![chars("a"), chars(""), chars("b")];
    assert_eq!(text(&join_lines(&lines, 0, 3)), "a\n\nb");
    assert_eq!(text(&join_lines(&lines, 1, 3)), "\nb");
    assert_eq!(text(&join_lines(&lines, 2, 2)), "");
}

#[test]
fn trimming_removes_unicode_white_space() {
    assert_eq!(text(&trim(&chars(" \t\u{a0}\u{3000}x y\u{2003}\r\n"))), "x y");
    assert_eq!(text(&trim_start(&chars("  x  "))), "x  ");
    assert_eq!(text(&trim(&chars("   "))), "");
    assert_eq!(text(&trim(&chars(""))), "");
}

#[test]
fn white_space_agrees_with_the_standard_library() {
    for code in 0u32..=0x10FFFF {
        if let Some(c) = char::from_u32(code) {
            assert_eq!(is_whitespace(c), c.is_whitespace());
        }
    }
}

#[test]
fn text_functions_agree_with_the_standard_library() {
    let samples = [
        "", " ", "a", "  a b  ", "\t\u{2028}x\u{85}", "Author", "AUTHOR", "author:", "Straße",
        "a\u{feff}", "\u{1680}mid\u{1680}dle\u{1680}", "ab", "ba", "aab", "abab", "İ", "i",
    ];
    for a in samples {
        assert_eq!(text(&trim(&chars(a))), a.trim());
        assert_eq!(text(&trim_start(&chars(a))), a.trim_start());
        assert_eq!(find_char(&chars(a), 'a'), a.chars().position(|c| c == 'a'));
        for b in samples {
            assert_eq!(contains(&chars(a), &chars(b)), a.contains(b));
            assert_eq!(eq_ignore_ascii_case(&chars(a), &chars(b)), a.eq_ignore_ascii_case(b));
        }
    }
}

#[test]
fn searching_finds_the_first_character_and_any_part() {
    assert_eq!(find_char(&chars("key: a:b"), ':'), Some(3));
    assert_eq!(find_char(&chars("no colon"), ':'), None);
    assert!(contains(&chars("hello"), &chars("ell")));
    assert!(contains(&chars("hello"), &chars("")));
    assert!(contains(&chars(""), &chars("")));
    assert!(!contains(&chars("hello"), &chars("elo")));
    assert!(!contains(&chars("he"), &chars("hello")));
    assert_eq!(chars_of("héllo"), chars("héllo"));
}

#[test]
fn ascii_case_is_ignored_for_ascii_letters_only() {
    assert!(eq_ignore_ascii_case(&chars("Author"), &chars("aUTHOR")));
    assert!(!eq_ignore_ascii_case(&chars("author"), &chars("authors")));
    assert!(!eq_ignore_ascii_case(&chars("É"), &chars("é")));
    assert!(!eq_ignore_ascii_case(&chars("@"), &chars("`")));
    assert!(!eq_ignore_ascii_case(&chars("["), &chars("{")));
}

#[test]
fn a_tag_list_holds_a_pattern_iff_one_tag_does() {
    let tags = vec!["Rust-Lang".to_string(), "CLI".to_string()];
    for pattern in ["rust", "LANG", "cli", "t-l", "", "python", "rustcli"] {
        let lower = pattern.to_lowercase();
        let expected = tags.iter().any(|t| t.to_lowercase().contains(&lower));
        assert_eq!(TagValue::Array(tags.clone()).contains_tag(pattern), expected);
        let single = TagValue::Single(tags[0].clone());
        assert_eq!(single.contains_tag(pattern), tags[0].to_lowercase().contains(&lower));
    }
}

#[test]
fn lower_case_is_unicode_lower_case() {
    assert!(TagValue::Single("ÉCOLE".to_string()).contains_tag("école"));
    assert!(TagValue::Single("école".to_string()).contains_tag("ÉCOLE"));
    assert!(metadata_of("# ÜBER uns").has_title("über"));
}

#[test]
fn without_declared_tags_only_the_regex_decides() {
    let matching = regex::Regex::new("needle").unwrap();
    let other = regex::Regex::new("absent").unwrap();
    for content in ["a needle here", "---\ntitle: needle\n---\nneedle", "---\ntags:\n---\nneedle"] {
        let metadata = metadata_of(content);
        assert!(metadata.has_tag("whatever", &matching));
        assert!(!metadata.has_tag("needle", &other));
    }
}

#[test]
fn declared_tags_are_found_without_the_regex() {
    let other = regex::Regex::new("absent").unwrap();
    let metadata = metadata_of("---\ntags: Rust\n---\ntext");
    assert!(metadata.has_tag("rust", &other));
    assert!(!metadata.has_tag("python", &other));
}

#[test]
fn reading_the_frontmatter_twice_gives_one_result() {
    for content in [
        "---\ntitle: T\ntags: [a, b]\nextra: [1, true, x]\n---\nbody",
        "---\n: bad\n---\n",
        "no frontmatter",
    ] {
        assert_eq!(extract_frontmatter(content), extract_frontmatter(content));
    }
}

#[test]
fn frontmatter_fields_are_sorted_into_their_places() {
    let fm = extract_frontmatter(
        "---\ntitle: T\nauthor: A\ntags: one\ncount: 42\nratio: 3.5\ndone: true\nlist: [x, 2]\nmap:\n  k: v\nnothing:\n---\n",
    )
    .unwrap();
    assert_eq!(fm.title, Some("T".to_string()));
    assert_eq!(fm.author, Some("A".to_string()));
    assert_eq!(fm.tags, Some(TagValue::Single("one".to_string())));
    assert_eq!(
        fm.extra,
        vec![
            ("count".to_string(), YamlValue::Number("42".to_string())),
            ("done".to_string(), YamlValue::Bool(true)),
            (
                "list".to_string(),
                YamlValue::Sequence(vec![
                    YamlValue::String("x".to_string()),
                    YamlValue::Number("2".to_string()),
                ])
            ),
            (
                "map".to_string(),
                YamlValue::Mapping(vec![
                    YamlValue::String("k".to_string()),
                    YamlValue::String("v".to_string()),
                ])
            ),
            ("nothing".to_string(), YamlValue::Null),
            ("ratio".to_string(), YamlValue::Number("3.5".to_string())),
        ]
    );
    assert_eq!(fm.field("count"), Some(&YamlValue::Number("42".to_string())));
    assert_eq!(fm.field("title"), None);
    assert_eq!(fm.field("Count"), None);
}

#[test]
fn frontmatter_with_a_refused_entry_is_none() {
    assert!(extract_frontmatter("---\ntitle: [a]\n---\n").is_none());
    assert!(extract_frontmatter("---\ntitle:\n  k: v\n---\n").is_none());
    assert!(extract_frontmatter("---\nauthor: [a]\n---\n").is_none());
    assert!(extract_frontmatter("---\ntags: 7\n---\n").is_none());
    assert!(extract_frontmatter("---\ntags: [a, 7]\n---\n").is_none());
    assert!(extract_frontmatter("---\n? [a, b]\n: x\n---\n").is_none());
    assert!(extract_frontmatter("---\njust a scalar\n---\n").is_none());
    assert!(extract_frontmatter("---\n- a\n- b\n---\n").is_none());
}

#[test]
fn a_scalar_title_or_author_gives_its_text() {
    let fm = extract_frontmatter("---\ntitle: 42\nauthor: true\ntags: [rust]\n---\n").unwrap();
    assert_eq!(fm.title, Some("42".to_string()));
    assert_eq!(fm.author, Some("true".to_string()));
    assert_eq!(fm.tags, Some(TagValue::Array(vec!["rust".to_string()])));
    assert!(fm.extra.is_empty());

    let fm = extract_frontmatter("---\ntitle: 2024\nauthor: 3.5\n---\n").unwrap();
    assert_eq!(fm.title, Some("2024".to_string()));
    assert_eq!(fm.author, Some("3.5".to_string()));

    let fm = extract_frontmatter("---\ntitle: \"42\"\nauthor: 'false'\n---\n").unwrap();
    assert_eq!(fm.title, Some("42".to_string()));
    assert_eq!(fm.author, Some("false".to_string()));
}

#[test]
fn a_file_with_a_numeric_title_keeps_its_tags_and_fields() {
    let content = "---\ntitle: 2024\ntags: [rust]\nstatus: draft\n---\n# Guide";
    let mut args = no_args();
    args.tags = vec!["rust".to_string()];
    let filters = CompiledFilters::from_args(&args).unwrap();
    assert!(file_matches(content, 10, false, &filters));

    let metadata = metadata_of(content);
    assert!(metadata.has_title("2024"));
    assert!(metadata.has_title("02"));
    assert!(metadata.has_field("status", "draft"));
    assert!(!metadata.has_title("draft"));
}

#[test]
fn a_field_that_holds_a_tagged_value_is_refused() {
    assert!(extract_frontmatter("---\nstatus: !mark draft\n---\n").is_none());
    assert!(extract_frontmatter("---\nlist: [a, !mark b]\n---\n").is_none());
    assert!(extract_frontmatter("---\nmap:\n  k: !mark v\n---\n").is_none());
    assert!(extract_frontmatter("---\ntags: !mark rust\n---\n").is_none());
    assert!(extract_frontmatter("---\ntags: [!mark rust]\n---\n").is_none());
    assert!(extract_frontmatter("---\nstatus: draft\nmap:\n  k: [v]\n---\n").is_some());
}

#[test]
fn frontmatter_with_null_fields_declares_nothing_for_them() {
    let fm = extract_frontmatter("---\ntitle:\nauthor: ~\ntags:\n---\n").unwrap();
    assert_eq!(
        fm,
        Frontmatter { title: None, author: None, tags: None, extra: vec![] }
    );
    let fm = extract_frontmatter("---\ntags: []\n---\n").unwrap();
    assert_eq!(fm.tags, Some(TagValue::Array(vec![])));
}

#[test]
fn a_copy_of_a_value_is_equal_to_it() {
    let value = YamlValue::Sequence(vec![
        YamlValue::String("x".to_string()),
        YamlValue::Sequence(vec![YamlValue::Bool(false), YamlValue::Null]),
        YamlValue::Mapping(vec![YamlValue::String("k".to_string()), YamlValue::Tagged]),
        YamlValue::Number("1.5".to_string()),
    ]);
    assert_eq!(duplicate_value(&value), value);
}

#[test]
fn a_bounded_read_takes_the_whole_frontmatter_block() {
    let mut content = String::from("---\n");
    for i in 0..30 {
        content.push_str(&format!("key{}: value{}\n", i, i));
    }
    content.push_str("---\n# Title\nmore\n");
    for budget in [0usize, 1, 5, 31] {
        let read = bounded_content(&content, budget).unwrap();
        assert_eq!(read.lines().count(), 32);
        assert_eq!(extract_frontmatter(&read), extract_frontmatter(&content));
    }
    assert_eq!(bounded_content(&content, 33).unwrap().lines().count(), 33);
    assert_eq!(bounded_content(&content, 100).unwrap().lines().count(), 34);
}

#[test]
fn a_bounded_read_of_a_closed_block_ends_with_the_closing_line() {
    let whole = "---\ntitle: T\ntags: [a, b]\nstatus: draft\n---\n# Heading\ntext\nmore\n";
    for budget in [0usize, 1, 2, 4] {
        let read = read_file_content(whole, budget, false).unwrap();
        assert_eq!(read, "---\ntitle: T\ntags: [a, b]\nstatus: draft\n---");
        assert_eq!(extract_frontmatter(&read), extract_frontmatter(whole));
    }
    assert_eq!(
        read_file_content(whole, 6, false).unwrap(),
        "---\ntitle: T\ntags: [a, b]\nstatus: draft\n---\n# Heading"
    );

    let crlf = "---\r\ntitle: T\r\nstatus: draft\r\n---\r\n# Heading\r\n";
    let read = read_file_content(crlf, 2, false).unwrap();
    assert_eq!(read, "---\ntitle: T\nstatus: draft\n---");
    assert_eq!(extract_frontmatter(&read), extract_frontmatter(crlf));
    assert!(extract_frontmatter(crlf).is_some());
}

#[test]
fn a_bounded_read_takes_at_least_one_line() {
    assert_eq!(bounded_content("a\nb\nc", 0).unwrap(), "a");
    assert_eq!(bounded_content("a\nb\nc", 1).unwrap(), "a");
    assert_eq!(bounded_content("a\nb\nc", 2).unwrap(), "a\nb");
    assert_eq!(bounded_content("a\nb\nc\n", 7).unwrap(), "a\nb\nc");
    assert_eq!(bounded_content("", 3).unwrap(), "");
    assert_eq!(bounded_content("x\n---\ny\n", 1).unwrap(), "x");
}

#[test]
fn an_unclosed_block_is_read_to_the_end() {
    assert_eq!(bounded_content("---\na: 1\nb: 2\nc: 3", 2).unwrap(), "---\na: 1\nb: 2\nc: 3");
}

#[test]
fn a_block_of_more_than_the_maximum_is_too_large() {
    let mut content = String::from("---\n");
    for i in 0..(MAX_FRONTMATTER_LINES - 1) {
        content.push_str(&format!("k{}: v\n", i));
    }
    // The opening line and the fields make exactly the maximum.
    let closed = format!("{}---\nbody\n", content);
    assert_eq!(bounded_content(&closed, 10).unwrap().lines().count(), MAX_FRONTMATTER_LINES + 1);
    assert_eq!(bounded_content(&content, 10).unwrap().lines().count(), MAX_FRONTMATTER_LINES);

    let longer = format!("{}one: more\n---\nbody\n", content);
    assert_eq!(bounded_content(&longer, 10), Err(ReadError::FrontmatterTooLarge));
    assert_eq!(read_file_content(&longer, 10, false), Err(ReadError::FrontmatterTooLarge));
    assert_eq!(read_file_content(&longer, 10, true), Ok(longer.clone()));
    assert!(Metadata::from_file(&longer, 10, false).is_err());
    assert!(!file_matches(&longer, 10, false, &no_filters()));
    assert!(file_matches(&longer, 10, true, &no_filters()));
}

#[test]
fn the_reader_says_when_to_stop() {
    let mut reader = HeadReader::new(2);
    assert_eq!(reader.push_line(" --- "), ReadStep::More);
    assert_eq!(reader.push_line("title: T"), ReadStep::More);
    assert_eq!(reader.push_line("x: 1"), ReadStep::More);
    assert_eq!(reader.push_line("---"), ReadStep::Done);
    assert_eq!(reader.text(), " --- \ntitle: T\nx: 1\n---");

    let mut reader = HeadReader::new(2);
    assert_eq!(reader.push_line("# Title"), ReadStep::More);
    assert_eq!(reader.push_line("---"), ReadStep::Done);

    let mut reader = HeadReader::new(0);
    assert_eq!(reader.push_line("only"), ReadStep::Done);

    let mut reader = HeadReader::new(1);
    assert_eq!(reader.push_line("---"), ReadStep::More);
    for _ in 1..MAX_FRONTMATTER_LINES {
        assert_eq!(reader.push_line("k: v"), ReadStep::More);
    }
    assert_eq!(reader.push_line("k: v"), ReadStep::TooLarge);
}

#[test]
fn dates_are_read_strictly_and_ordered_by_the_calendar() {
    assert_eq!(Date::parse("2024-02-29"), Some(Date { year: 2024, month: 2, day: 29 }));
    assert_eq!(Date::parse("2023-02-29"), None);
    assert_eq!(Date::parse("2024/01/15"), None);
    assert_eq!(Date::parse("2024-13-01"), None);
    assert_eq!(Date::parse(""), None);
    let a = Date { year: 2024, month: 1, day: 31 };
    let b = Date { year: 2024, month: 2, day: 1 };
    assert!(a.precedes(&b) && !b.precedes(&a) && !a.precedes(&a));
    assert!(a.on_or_before(&a) && a.on_or_before(&b) && !b.on_or_before(&a));
    assert!(a.is_within(Some(a), Some(a)));
    assert!(a.is_within(None, None));
    assert!(!a.is_within(Some(b), None));
    assert!(!b.is_within(None, Some(a)));
}

#[test]
fn inserted_dates_stay_sorted_and_distinct() {
    let mut dates = Vec::new();
    for (y, m, d) in [(2024, 5, 1), (2023, 12, 31), (2024, 5, 1), (2024, 1, 9), (2023, 12, 31)] {
        insert_date(&mut dates, Date { year: y, month: m, day: d });
    }
    assert_eq!(
        dates,
        vec![
            Date { year: 2023, month: 12, day: 31 },
            Date { year: 2024, month: 1, day: 9 },
            Date { year: 2024, month: 5, day: 1 },
        ]
    );
}

#[test]
fn extracted_dates_are_sorted_and_distinct() {
    let metadata = metadata_of(
        "---\nmodified: 2024-03-01\ndate: 2024-01-15\ncreated: 2024-01-15\nupdated: nonsense\n---\ndate: 1999-01-01",
    );
    assert_eq!(
        metadata.extract_dates(),
        vec![Date { year: 2024, month: 1, day: 15 }, Date { year: 2024, month: 3, day: 1 }]
    );
    let metadata = metadata_of("  Updated :  2024-03-01  \nDATE: 2024-01-15\ndue: 2020-01-01\ndate: x");
    assert_eq!(
        metadata.extract_dates(),
        vec![Date { year: 2024, month: 1, day: 15 }, Date { year: 2024, month: 3, day: 1 }]
    );
}

#[test]
fn a_document_without_dates_matches_no_date_filter() {
    let early = Date { year: 1, month: 1, day: 1 };
    let late = Date { year: 9999, month: 12, day: 31 };
    for content in ["# Title", "---\ntitle: T\n---\ndate: 2024-01-01", "date: tomorrow"] {
        let metadata = metadata_of(content);
        assert!(metadata.extract_dates().is_empty());
        assert!(!metadata.matches_date_filters(None, None));
        assert!(!metadata.matches_date_filters(Some(early), None));
        assert!(!metadata.matches_date_filters(None, Some(late)));
        assert!(!metadata.matches_date_filters(Some(early), Some(late)));
    }
}

#[test]
fn kinds_of_filters_are_joined_by_and_patterns_by_or() {
    let metadata = metadata_of("---\ntitle: Rust Guide\nauthor: Ann\nstatus: draft\n---\n#cli text");
    let hit = || regex::Regex::new("#cli").unwrap();
    let miss = || regex::Regex::new("#nothing").unwrap();

    let mut filters = no_filters();
    assert!(should_include_file_by_content(&metadata, &filters));

    filters.title_patterns = vec!["python".to_string(), "guide".to_string()];
    assert!(should_include_file_by_content(&metadata, &filters));
    filters.author_patterns = vec!["bob".to_string(), "ann".to_string()];
    assert!(should_include_file_by_content(&metadata, &filters));
    filters.field_patterns = vec![
        ("status".to_string(), "final".to_string()),
        ("status".to_string(), "draft".to_string()),
    ];
    assert!(should_include_file_by_content(&metadata, &filters));
    filters.tag_patterns = vec![("x".to_string(), miss()), ("y".to_string(), hit())];
    assert!(should_include_file_by_content(&metadata, &filters));

    // One kind without a satisfied pattern excludes the document.
    filters.tag_patterns = vec![("x".to_string(), miss())];
    assert!(!should_include_file_by_content(&metadata, &filters));
    filters.tag_patterns = vec![];
    filters.date_after = Some(Date { year: 2000, month: 1, day: 1 });
    assert!(!should_include_file_by_content(&metadata, &filters));
    filters.date_after = None;
    filters.author_patterns = vec!["bob".to_string()];
    assert!(!should_include_file_by_content(&metadata, &filters));
}

#[test]
fn a_tag_filter_includes_the_file_with_the_tag() {
    let mut args = no_args();
    args.tags = vec!["rust".to_string()];
    let filters = CompiledFilters::from_args(&args).unwrap();
    assert!(file_matches("---\ntags: [rust]\n---\n# Guide", 10, false, &filters));
    assert!(!file_matches("---\ntags: [python]\n---\n# Guide", 10, false, &filters));
}

#[test]
fn an_inline_tag_below_the_head_needs_the_full_text() {
    let mut content = String::new();
    for i in 1..15 {
        content.push_str(&format!("line {}\n", i));
    }
    content.push_str("tags: #important\n");
    let mut args = no_args();
    args.tags = vec!["important".to_string()];
    let filters = CompiledFilters::from_args(&args).unwrap();
    assert!(!file_matches(&content, 10, false, &filters));
    assert!(file_matches(&content, 10, true, &filters));
    assert!(file_matches(&content, 15, false, &filters));
}

#[test]
fn a_field_filter_looks_at_the_field_of_that_name() {
    let mut args = no_args();
    args.fields = vec!["status:draft".to_string()];
    let filters = CompiledFilters::from_args(&args).unwrap();
    assert!(file_matches("---\nstatus: draft\n---\n", 10, false, &filters));
    assert!(!file_matches("---\nstatus: active\n---\n", 10, false, &filters));
    assert!(!file_matches("---\nstate: draft\n---\n", 10, false, &filters));
}

#[test]
fn a_date_filter_includes_dates_within_its_bounds() {
    let mut args = no_args();
    args.date_after = Some("2024-01-01".to_string());
    args.date_before = Some("2024-02-01".to_string());
    let filters = CompiledFilters::from_args(&args).unwrap();
    assert_eq!(filters.date_after, Some(Date { year: 2024, month: 1, day: 1 }));
    assert_eq!(filters.date_before, Some(Date { year: 2024, month: 2, day: 1 }));
    assert!(file_matches("---\ndate: 2024-01-15\n---\n", 10, false, &filters));
    assert!(file_matches("---\ndate: 2024-01-01\n---\n", 10, false, &filters));
    assert!(file_matches("---\ndate: 2024-02-01\n---\n", 10, false, &filters));
    assert!(!file_matches("---\ndate: 2024-03-01\n---\n", 10, false, &filters));
    assert!(!file_matches("---\ntitle: no date\n---\n", 10, false, &filters));
}

#[test]
fn an_empty_side_of_a_field_filter_is_a_fault() {
    let mut args = no_args();
    args.fields = vec!["ok:fine".to_string(), ":pattern".to_string()];
    let e = fault_of(&args);
    assert_eq!(e.kind, FilterErrorKind::FieldNameEmpty);
    assert_eq!(e.message(), "Field name cannot be empty in filter ':pattern'");

    args.fields = vec!["field:".to_string()];
    let e = fault_of(&args);
    assert_eq!(e.kind, FilterErrorKind::FieldPatternEmpty);
    assert_eq!(e.message(), "Pattern cannot be empty in filter 'field:'");

    args.fields = vec![" : ".to_string()];
    let e = fault_of(&args);
    assert_eq!(e.kind, FilterErrorKind::FieldBothEmpty);
    assert_eq!(e.message(), "Both field and pattern cannot be empty in filter ' : '");

    args.fields = vec!["no colon".to_string()];
    let e = fault_of(&args);
    assert_eq!(e.kind, FilterErrorKind::FieldFormat);
    assert_eq!(
        e.message(),
        "Invalid field filter format: 'no colon'. Expected 'field:pattern'"
    );
}

#[test]
fn the_first_fault_is_reported() {
    let mut args = no_args();
    args.names = vec!["fine".to_string(), "[invalid".to_string(), "(also".to_string()];
    args.fields = vec!["broken".to_string()];
    args.date_after = Some("yesterday".to_string());
    args.date_before = Some("tomorrow".to_string());
    let e = fault_of(&args);
    assert_eq!(e.kind, FilterErrorKind::FilenamePattern);
    assert_eq!(e.input, "[invalid");
    assert_eq!(e.message(), "Failed to compile filename pattern: [invalid");

    args.names = vec![];
    assert_eq!(fault_of(&args).kind, FilterErrorKind::FieldFormat);
    args.fields = vec![];
    let e = fault_of(&args);
    assert_eq!(e.kind, FilterErrorKind::DateAfterFormat);
    assert_eq!(
        e.message(),
        "Invalid date format for --date-after: 'yesterday'. Expected YYYY-MM-DD"
    );
    args.date_after = None;
    let e = fault_of(&args);
    assert_eq!(e.kind, FilterErrorKind::DateBeforeFormat);
    assert_eq!(
        e.message(),
        "Invalid date format for --date-before: 'tomorrow'. Expected YYYY-MM-DD"
    );
}

#[test]
fn a_tag_whose_regex_is_too_large_is_a_fault() {
    let mut args = no_args();
    args.tags = vec!["x".repeat(1_000_000)];
    let e = fault_of(&args);
    assert_eq!(e.kind, FilterErrorKind::TagPattern);
    assert!(e.message().starts_with("Failed to compile tag pattern: xxx"));
}

#[test]
fn compiled_patterns_are_trimmed_and_in_lower_case() {
    let mut args = no_args();
    args.tags = vec!["#Rust".to_string(), "C++".to_string(), "##x".to_string()];
    args.titles = vec!["My TITLE".to_string()];
    args.authors = vec!["ÉMILE".to_string()];
    args.fields = vec!["  Status : In Progress:NOW ".to_string()];
    let filters = CompiledFilters::from_args(&args).unwrap();
    assert_eq!(filters.tag_patterns[0].0, "rust");
    assert_eq!(filters.tag_patterns[1].0, "c++");
    assert_eq!(filters.tag_patterns[2].0, "#x");
    assert_eq!(filters.title_patterns, vec!["my title"]);
    assert_eq!(filters.author_patterns, vec!["émile"]);
    assert_eq!(
        filters.field_patterns,
        vec![("Status".to_string(), "in progress:now".to_string())]
    );
}

#[test]
fn a_tag_regex_takes_the_tag_literally_between_non_word_characters() {
    let mut args = no_args();
    args.tags = vec!["a.c".to_string(), "C++".to_string()];
    let filters = CompiledFilters::from_args(&args).unwrap();
    let dotted = &filters.tag_patterns[0].1;
    assert!(dotted.is_match("see #a.c here"));
    assert!(dotted.is_match("#A.C"));
    assert!(!dotted.is_match("#abc"));
    assert!(!dotted.is_match("#a.cd"));
    assert!(!dotted.is_match("x#a.c"));
    assert!(!dotted.is_match("a.c"));
    let plus = &filters.tag_patterns[1].1;
    assert!(plus.is_match("(#c++)"));
    assert!(!plus.is_match("#c"));
}

#[test]
fn filename_patterns_are_regexes_as_written() {
    let mut args = no_args();
    args.names = vec!["^notes-\\d+\\.md$".to_string(), "readme".to_string()];
    let filters = CompiledFilters::from_args(&args).unwrap();
    assert!(filters.accepts_name(Some("notes-2025.md")));
    assert!(filters.accepts_name(Some("my-readme.txt")));
    assert!(!filters.accepts_name(Some("README.md")));
    assert!(!filters.accepts_name(Some("notes-x.md")));
    assert!(!filters.accepts_name(None));
    assert!(no_filters().accepts_name(None));
    assert!(!matches_filename(None, &filters.name_patterns[0]));

    args.ignore_case = true;
    let filters = CompiledFilters::from_args(&args).unwrap();
    assert!(filters.accepts_name(Some("README.md")));
}

#[test]
fn no_filters_is_recognised() {
    let mut args = no_args();
    assert!(args.has_no_filters());
    args.date_before = Some("2024-01-01".to_string());
    assert!(!args.has_no_filters());
    args.date_before = None;
    args.authors = vec!["a".to_string()];
    assert!(!args.has_no_filters());
}

#[test]
fn headings_need_one_to_six_hashes_and_a_space() {
    assert!(metadata_of("   ###### Deep topic").has_title("deep"));
    assert!(!metadata_of("####### Too deep topic").has_title("deep"));
    assert!(!metadata_of("#No space").has_title("space"));
    assert!(!metadata_of("Plain topic").has_title("topic"));
    assert!(metadata_of("# A # B").has_title(" # b"));
    assert!(metadata_of("text\n\t## Second").has_title("second"));
}

#[test]
fn inline_fields_compare_the_key_whole_and_the_value_in_part() {
    let metadata = metadata_of("  Author: Ann Lee\nstatus : draft\nurl: http://x.y");
    assert!(metadata.has_author("ann"));
    assert!(metadata.has_field("AUTHOR", " lee"));
    assert!(!metadata.has_field("auth", "ann"));
    assert!(!metadata.has_field("status", "draft"));
    assert!(metadata.has_field("status ", "draft"));
    assert!(metadata.has_field("url", "//x"));
    assert!(!metadata.has_field("url", "url"));
}

#[test]
fn setting_a_field_replaces_the_field_of_that_name() {
    let mut fm = Frontmatter { title: None, author: None, tags: None, extra: vec![] };
    fm.set_field("a".to_string(), YamlValue::Bool(true));
    fm.set_field("b".to_string(), YamlValue::Null);
    fm.set_field("a".to_string(), YamlValue::String("x".to_string()));
    assert_eq!(
        fm.extra,
        vec![
            ("a".to_string(), YamlValue::String("x".to_string())),
            ("b".to_string(), YamlValue::Null),
        ]
    );
    assert_eq!(fm.field("a"), Some(&YamlValue::String("x".to_string())));
    assert_eq!(fm.field("c"), None);
}

#[test]
fn a_field_that_is_named_twice_has_the_later_value() {
    let fm = extract_frontmatter("---\nstatus: a\nother: 1\nstatus: b\n---\n").unwrap();
    assert_eq!(fm.field("status"), Some(&YamlValue::String("b".to_string())));
    assert_eq!(fm.extra.len(), 2);
}

#[test]
fn a_scalar_key_names_a_field_by_its_text() {
    let fm = extract_frontmatter("---\n2024: x\ntrue: y\n---\n").unwrap();
    assert_eq!(fm.field("2024"), Some(&YamlValue::String("x".to_string())));
    assert_eq!(fm.field("true"), Some(&YamlValue::String("y".to_string())));
    assert!(Metadata::from_content("---\n2024: x\n---\n".to_string()).has_field("2024", "x"));
}

#[test]
fn a_block_of_blank_lines_or_comments_declares_nothing() {
    let empty = Frontmatter { title: None, author: None, tags: None, extra: vec![] };
    assert_eq!(extract_frontmatter("---\n\n---\n"), Some(Frontmatter { ..empty }));
    assert_eq!(
        extract_frontmatter("---\n# a comment\n---\n"),
        Some(Frontmatter { title: None, author: None, tags: None, extra: vec![] })
    );
    assert!(extract_frontmatter("---\n~\n---\n").is_none());
}

#[test]
fn build_and_cache_directories_are_skipped() {
    for name in ["target", "node_modules", "__pycache__", ".obsidian", ".tox", "tmp"] {
        assert!(is_excluded_dir(name));
    }
    for name in ["Target", "targets", "src", "", ".git", "docs"] {
        assert!(!is_excluded_dir(name));
    }
    let path = |parts: &[&str]| parts.iter().map(|p| p.to_string()).collect::<Vec<String>>();
    assert!(should_skip(&path(&["project", "target", "doc", "a.md"])));
    assert!(should_skip(&path(&["vendor"])));
    assert!(!should_skip(&path(&["project", "docs", "target.md"])));
    assert!(!should_skip(&path(&[])));
}
