use csv_analyzer::analysis::{numeric_text, read_numbers};
use csv_analyzer::column::{
    count_blank, count_distinct, first_values, reading_exceeds, reading_range, text_range,
};
use csv_analyzer::config::{AnalyzerConfig, CSVAnalyzer};
use csv_analyzer::labels::{FormatChecks, TypeLabel};
use csv_analyzer::report::{Ratio, Reading};
use csv_analyzer::table::{all_distinct, build_table};
use csv_analyzer::tally::summarize;
use csv_analyzer::text::{chars_of, holds, is_blank_text, is_space_char, text_precedes};

fn rank_of(value: f64) -> Option<i64> {
    if value.is_nan() {
        return None;
    }
    let bits = value.to_bits();
    let magnitude = (bits & 0x7fff_ffff_ffff_ffff) as i64;
    Some(if bits >> 63 == 1 { -magnitude } else { magnitude })
}

fn read_number(text: &str) -> Option<Reading> {
    let value: f64 = text.parse().ok()?;
    Some(Reading { rank: rank_of(value), text: value.to_string() })
}

fn strings(items: &[&str]) -> Vec<String> {
    items.iter().map(|item| item.to_string()).collect()
}

fn engine_with(cap: Option<usize>) -> CSVAnalyzer {
    let mut config = AnalyzerConfig::new();
    config.set_sample_size(cap);
    CSVAnalyzer::new(Some(config))
}

fn readings_of(values: &[String]) -> Vec<Option<Reading>> {
    values.iter().map(|value| read_number(&numeric_text(value))).collect()
}

fn no_checks() -> FormatChecks {
    FormatChecks {
        boolean: false,
        integer: false,
        float: false,
        date: false,
        datetime: false,
        time: false,
        email: false,
        url: false,
        ip: false,
    }
}

#[test]
fn configuration_starts_without_a_cap() {
    let mut config = AnalyzerConfig::new();
    assert_eq!(config.sample_size(), None);
    assert_eq!(AnalyzerConfig::default().sample_size(), None);
    config.set_sample_size(Some(7));
    assert_eq!(config.sample_size(), Some(7));
    config.set_sample_size(None);
    assert_eq!(config.sample_size(), None);
    assert_eq!(CSVAnalyzer::new(None).config().sample_size(), None);
    config.set_sample_size(Some(4));
    assert_eq!(CSVAnalyzer::new(Some(config)).config().sample_size(), Some(4));
}

#[test]
fn sample_size_is_the_smaller_of_cap_and_total() {
    assert_eq!(engine_with(None).get_sample_size(10), 10);
    assert_eq!(engine_with(None).get_sample_size(0), 0);
    assert_eq!(engine_with(Some(3)).get_sample_size(10), 3);
    assert_eq!(engine_with(Some(10)).get_sample_size(10), 10);
    assert_eq!(engine_with(Some(30)).get_sample_size(10), 10);
    assert_eq!(engine_with(Some(0)).get_sample_size(10), 0);
}

#[test]
fn cascade_follows_the_order_of_the_checks() {
    let mut checks = no_checks();
    assert_eq!(TypeLabel::from_checks(checks), TypeLabel::Text);
    checks.ip = true;
    assert_eq!(TypeLabel::from_checks(checks), TypeLabel::Ip);
    checks.url = true;
    assert_eq!(TypeLabel::from_checks(checks), TypeLabel::Url);
    checks.email = true;
    assert_eq!(TypeLabel::from_checks(checks), TypeLabel::Email);
    checks.time = true;
    assert_eq!(TypeLabel::from_checks(checks), TypeLabel::Time);
    checks.datetime = true;
    assert_eq!(TypeLabel::from_checks(checks), TypeLabel::DateTime);
    checks.date = true;
    assert_eq!(TypeLabel::from_checks(checks), TypeLabel::Date);
    checks.float = true;
    assert_eq!(TypeLabel::from_checks(checks), TypeLabel::Float);
    checks.integer = true;
    assert_eq!(TypeLabel::from_checks(checks), TypeLabel::Integer);
    checks.boolean = true;
    assert_eq!(TypeLabel::from_checks(checks), TypeLabel::Boolean);
}

#[test]
fn labels_have_ranks_and_names() {
    let names = [
        "boolean", "integer", "float", "date", "datetime", "time", "email", "url", "ip", "string",
        "null",
    ];
    for (rank, name) in names.iter().enumerate() {
        let label = TypeLabel::from_index(rank);
        assert_eq!(label.index(), rank);
        assert_eq!(label.name(), *name);
    }
    assert_eq!(TypeLabel::from_index(11), TypeLabel::Null);
    assert_eq!(TypeLabel::from_index(usize::MAX), TypeLabel::Null);
}

#[test]
fn the_most_frequent_label_is_primary() {
    let labels = vec![TypeLabel::Float, TypeLabel::Text, TypeLabel::Float, TypeLabel::Integer];
    let (primary, confidence, subtypes) = summarize(&labels);
    assert_eq!(primary, TypeLabel::Float);
    assert_eq!(confidence, Ratio { numerator: 2, denominator: 4 });
    assert_eq!(subtypes, vec![TypeLabel::Integer, TypeLabel::Float, TypeLabel::Text]);
}

#[test]
fn ties_go_to_the_later_label_but_not_to_text() {
    let (primary, confidence, _) = summarize(&vec![TypeLabel::Boolean, TypeLabel::Integer]);
    assert_eq!(primary, TypeLabel::Integer);
    assert_eq!(confidence, Ratio { numerator: 1, denominator: 2 });
    let (primary, _, _) = summarize(&vec![TypeLabel::Integer, TypeLabel::Boolean]);
    assert_eq!(primary, TypeLabel::Integer);
    let (primary, _, _) = summarize(&vec![TypeLabel::Text, TypeLabel::Email]);
    assert_eq!(primary, TypeLabel::Email);
    let (primary, _, _) = summarize(&vec![TypeLabel::Email, TypeLabel::Text]);
    assert_eq!(primary, TypeLabel::Email);
    let (primary, _, _) = summarize(&vec![TypeLabel::Float, TypeLabel::Integer, TypeLabel::Ip]);
    assert_eq!(primary, TypeLabel::Ip);
    let (primary, _, _) = summarize(&vec![TypeLabel::Text, TypeLabel::Text, TypeLabel::Date]);
    assert_eq!(primary, TypeLabel::Text);
    let (primary, confidence, subtypes) = summarize(&vec![TypeLabel::Text]);
    assert_eq!(primary, TypeLabel::Text);
    assert!(confidence.is_whole());
    assert_eq!(subtypes, vec![TypeLabel::Text]);
}

#[test]
fn no_labels_give_the_null_type() {
    let (primary, confidence, subtypes) = summarize(&Vec::new());
    assert_eq!(primary, TypeLabel::Null);
    assert_eq!(confidence, Ratio { numerator: 1, denominator: 1 });
    assert!(subtypes.is_empty());
}

#[test]
fn a_twentieth_is_a_share_worth_reporting() {
    let mut labels = vec![TypeLabel::Integer; 19];
    labels.push(TypeLabel::Email);
    let (primary, confidence, subtypes) = summarize(&labels);
    assert_eq!(primary, TypeLabel::Integer);
    assert_eq!(confidence, Ratio { numerator: 19, denominator: 20 });
    assert_eq!(subtypes, vec![TypeLabel::Integer, TypeLabel::Email]);
    labels.push(TypeLabel::Integer);
    let (_, confidence, subtypes) = summarize(&labels);
    assert_eq!(confidence, Ratio { numerator: 20, denominator: 21 });
    assert_eq!(subtypes, vec![TypeLabel::Integer]);
}

#[test]
fn confidence_is_whole_exactly_when_all_labels_agree() {
    let engine = engine_with(None);
    let (_, details, _) = engine.detect_column_type(&strings(&["7", " 8 ", "", "9"]));
    assert!(details.confidence.is_whole());
    assert!(details.confidence.numerator <= details.confidence.denominator);
    assert_eq!(details.confidence.denominator, 3);
    let (_, details, _) = engine.detect_column_type(&strings(&["7", "x", "9"]));
    assert!(!details.confidence.is_whole());
    assert!(details.confidence.numerator <= details.confidence.denominator);
    assert!(details.confidence.denominator > 0);
}

#[test]
fn examples_are_the_first_three_distinct_values() {
    let engine = engine_with(None);
    let (label, details, examined) =
        engine.detect_column_type(&strings(&[" x ", "x", "", "y", "x", "z", "w"]));
    assert_eq!(label, TypeLabel::Text);
    assert_eq!(details.format_examples, strings(&["x", "y", "z"]));
    assert_eq!(examined, 7);
    let (_, details, examined) = engine_with(Some(2)).detect_column_type(&strings(&["x", "x", "y"]));
    assert_eq!(details.format_examples, strings(&["x"]));
    assert_eq!(examined, 2);
}

#[test]
fn texts_are_ordered_by_code_point() {
    let samples = ["", "a", "A", "ab", "b", "é", "z", "10", "9", "\u{10000}", "\u{ffff}", "aa"];
    for left in samples {
        for right in samples {
            assert_eq!(text_precedes(left, right), left <= right, "{:?} {:?}", left, right);
        }
    }
}

#[test]
fn range_of_texts_is_lexicographic() {
    let values = strings(&["31/12/2023", " 01/02/2024 ", "", "15/06/2022"]);
    let (first, last) = text_range(&values, 4);
    assert_eq!(first.as_deref(), Some("01/02/2024"));
    assert_eq!(last.as_deref(), Some("31/12/2023"));
    let (first, last) = text_range(&values, 1);
    assert_eq!(first.as_deref(), Some("31/12/2023"));
    assert_eq!(last.as_deref(), Some("31/12/2023"));
    assert_eq!(text_range(&values, 0), (None, None));
    assert_eq!(text_range(&values, 9), text_range(&values, 4));
    assert_eq!(text_range(&strings(&["", "  "]), 2), (None, None));
}

#[test]
fn range_of_numbers_follows_their_values() {
    let values = strings(&["10", "9", " 2,5 ", "x", "", "-3"]);
    let readings = readings_of(&values);
    let (low, high) = reading_range(&readings, readings.len());
    assert_eq!(low.as_deref(), Some("-3"));
    assert_eq!(high.as_deref(), Some("10"));
    let (low, high) = reading_range(&readings, 3);
    assert_eq!(low.as_deref(), Some("2.5"));
    assert_eq!(high.as_deref(), Some("10"));
    assert_eq!(reading_range(&readings, 0), (None, None));
    assert_eq!(reading_range(&readings, 99), reading_range(&readings, readings.len()));
}

#[test]
fn numbers_that_compare_with_nothing_never_give_way() {
    let expected = |values: &[f64]| {
        let order = |a: &&f64, b: &&f64| a.partial_cmp(b).unwrap_or(std::cmp::Ordering::Equal);
        (
            values.iter().min_by(order).map(|value| value.to_string()),
            values.iter().max_by(order).map(|value| value.to_string()),
        )
    };
    let cases: [&[&str]; 7] = [
        &["nan", "2", "1"],
        &["5", "nan", "1"],
        &["1", "2", "nan"],
        &["-0", "0", "0.0"],
        &["0", "-0"],
        &["inf", "-inf", "1e400", "3"],
        &["1", "1.0", "1e0"],
    ];
    for case in cases {
        let values = strings(case);
        let numbers: Vec<f64> = case.iter().map(|text| text.parse().unwrap()).collect();
        let readings = readings_of(&values);
        assert_eq!(reading_range(&readings, readings.len()), expected(&numbers), "{:?}", case);
    }
}

#[test]
fn one_reading_exceeds_another_only_by_rank() {
    let reading = |rank: Option<i64>| Reading { rank, text: String::new() };
    assert!(reading_exceeds(&reading(Some(2)), &reading(Some(1))));
    assert!(!reading_exceeds(&reading(Some(1)), &reading(Some(1))));
    assert!(!reading_exceeds(&reading(Some(1)), &reading(Some(2))));
    assert!(!reading_exceeds(&reading(None), &reading(Some(2))));
    assert!(!reading_exceeds(&reading(Some(2)), &reading(None)));
    assert!(!reading_exceeds(&reading(None), &reading(None)));
}

#[test]
fn range_depends_on_the_type() {
    let engine = engine_with(None);
    let values = strings(&["b", "10", "9", "a"]);
    let readings = readings_of(&values);
    let numeric = (Some("9".to_string()), Some("10".to_string()), 4);
    let textual = (Some("10".to_string()), Some("b".to_string()), 4);
    assert_eq!(engine.find_min_max(&values, TypeLabel::Integer, &readings), numeric);
    assert_eq!(engine.find_min_max(&values, TypeLabel::Float, &readings), numeric);
    for label in [TypeLabel::Date, TypeLabel::DateTime, TypeLabel::Time, TypeLabel::Text] {
        assert_eq!(engine.find_min_max(&values, label, &readings), textual);
    }
    for label in
        [TypeLabel::Boolean, TypeLabel::Email, TypeLabel::Url, TypeLabel::Ip, TypeLabel::Null]
    {
        assert_eq!(engine.find_min_max(&values, label, &readings), (None, None, 4));
    }
    assert_eq!(
        engine.find_min_max(&values, TypeLabel::Integer, &Vec::new()),
        (None, None, 4)
    );
}

#[test]
fn lengths_are_counted_in_bytes_of_trimmed_values() {
    let engine = engine_with(None);
    assert_eq!(engine.find_length_stats(&strings(&[" ab ", "é", "", "hello"])), (2, 5, 4));
    assert_eq!(engine.find_length_stats(&strings(&["日本語", "abcd"])), (4, 9, 2));
    assert_eq!(engine.find_length_stats(&strings(&["", " "])), (0, 0, 2));
    assert_eq!(engine.find_length_stats(&Vec::new()), (0, 0, 0));
    assert_eq!(
        engine_with(Some(1)).find_length_stats(&strings(&["abc", "a", "abcdef"])),
        (3, 3, 1)
    );
}

#[test]
fn counts_are_taken_over_the_whole_column() {
    let values = strings(&["a", "A", "a", "", " ", "b", "c", "d", "e", "f"]);
    assert_eq!(count_distinct(&values), 9);
    assert_eq!(count_blank(&values), 2);
    assert_eq!(first_values(&values), strings(&["a", "A", "a", "b", "c"]));
    assert_eq!(count_distinct(&Vec::new()), 0);
    assert_eq!(count_blank(&Vec::new()), 0);
    assert!(first_values(&strings(&["", " "])).is_empty());
    let profile = engine_with(Some(3)).profile_column("letters", &values, &Vec::new());
    assert_eq!(profile.name, "letters");
    assert_eq!(profile.unique_values, 9);
    assert_eq!(profile.null_count, 2);
    assert_eq!(profile.valid_count, 8);
    assert_eq!(profile.total_count, 10);
    assert_eq!(profile.valid_count + profile.null_count, profile.total_count);
    assert!(profile.unique_values <= profile.total_count);
    assert_eq!(profile.analyzed_count, 3);
    assert_eq!(profile.sample_values, strings(&["a", "A", "a", "b", "c"]));
    assert_eq!(profile.min_value.as_deref(), Some("A"));
    assert_eq!(profile.max_value.as_deref(), Some("a"));
}

#[test]
fn without_a_cap_every_value_is_examined() {
    for total in [0usize, 1, 4, 25] {
        let values: Vec<String> = (0..total).map(|i| format!("v{}", i)).collect();
        let profile = engine_with(None).profile_column("c", &values, &Vec::new());
        assert_eq!(profile.analyzed_count, profile.total_count);
        assert_eq!(profile.total_count, total);
    }
}

#[test]
fn numbers_are_read_from_trimmed_text_with_decimal_points() {
    assert_eq!(numeric_text(" 1,5 "), "1.5");
    assert_eq!(numeric_text("1,234,5"), "1.234.5");
    assert_eq!(numeric_text("\t-7\n"), "-7");
    assert_eq!(numeric_text("  "), "");
    assert_eq!(numeric_text("é,"), "é.");
    let values = strings(&[" 1,5 ", "x", "3"]);
    let readings = read_numbers(&values, 2, &read_number);
    assert_eq!(readings.len(), 2);
    assert_eq!(read_numbers(&values, 7, &read_number).len(), 3);
    assert_eq!(readings[0].as_ref().map(|reading| reading.text.as_str()), Some("1.5"));
    assert!(readings[1].is_none());
}

#[test]
fn characters_and_blanks() {
    assert_eq!(chars_of("aé\u{10000}"), vec!['a', 'é', '\u{10000}']);
    assert!(chars_of("").is_empty());
    assert!(is_blank_text(""));
    assert!(is_blank_text(" \t\u{3000}\n"));
    assert!(!is_blank_text(" . "));
    for code in 0u32..=0x10ffff {
        if let Some(c) = char::from_u32(code) {
            assert_eq!(is_space_char(c), c.is_whitespace(), "{:x}", code);
        }
    }
    assert!(holds(&strings(&["a", "b"]), &"b".to_string()));
    assert!(!holds(&strings(&["a", "b"]), &"B".to_string()));
    assert!(!holds(&Vec::new(), &String::new()));
}

#[test]
fn headers_of_one_name_share_the_last_field() {
    let headers = strings(&["a", "b", "a"]);
    assert!(!all_distinct(&headers));
    assert!(all_distinct(&strings(&["a", "b", "c"])));
    assert!(all_distinct(&Vec::new()));
    let rows = vec![
        Some(strings(&["1", "2", "3"])),
        None,
        Some(strings(&["4"])),
        Some(strings(&["5", "6"])),
        Some(strings(&["7", "8", "9", "10"])),
        Some(Vec::new()),
    ];
    let table = build_table(';', headers, &rows);
    assert_eq!(table.delimiter, ';');
    assert_eq!(table.headers, strings(&["a", "b", "a"]));
    assert_eq!(table.columns.len(), 3);
    assert_eq!(table.columns[0], strings(&["3", "4", "5", "9"]));
    assert_eq!(table.columns[1], strings(&["2", "6", "8"]));
    assert_eq!(table.columns[2], strings(&["3", "4", "5", "9"]));
}

#[test]
fn distinct_headers_take_the_field_at_their_place() {
    let headers = strings(&["a", "b", "c"]);
    let rows = vec![Some(strings(&["1", "2", "3"])), Some(strings(&["4", "5"])), None];
    let wider = build_table(',', strings(&["a", "b", "c", "a"]), &rows);
    let table = build_table(',', headers, &rows);
    assert_eq!(wider.columns[1], table.columns[1]);
    assert_eq!(wider.columns[2], table.columns[2]);
    assert_eq!(table.columns[0], strings(&["1", "4"]));
    assert_eq!(table.columns[1], strings(&["2", "5"]));
    assert_eq!(table.columns[2], strings(&["3"]));
}

#[test]
fn a_table_is_profiled_column_by_column() {
    let table = CSVAnalyzer::read_table("n|w\n 3 | x \n1,5|y\n").expect("readable");
    assert_eq!(table.delimiter, '|');
    assert_eq!(table.columns[0], strings(&["3", "1,5"]));
    let readings: Vec<Vec<Option<Reading>>> =
        table.columns.iter().map(|column| readings_of(column)).collect();
    let engine = engine_with(None);
    let given = engine.analyze_table(&table, &readings);
    let asked = engine.analyze_with(&table, &read_number);
    assert_eq!(format!("{:?}", given), format!("{:?}", asked));
    assert_eq!(given.columns[0].type_label, TypeLabel::Float);
    assert_eq!(given.columns[0].min_value.as_deref(), Some("1.5"));
    assert_eq!(given.columns[0].max_value.as_deref(), Some("3"));
    assert_eq!(given.columns[1].min_value.as_deref(), Some("x"));
    let bare = engine.analyze_table(&table, &Vec::new());
    assert_eq!(bare.columns[0].min_value, None);
    assert_eq!(bare.columns[1].max_value.as_deref(), Some("y"));
}
