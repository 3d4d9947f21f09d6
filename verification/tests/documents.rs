use csv_analyzer::config::{AnalyzerConfig, CSVAnalyzer};
use csv_analyzer::labels::TypeLabel;
use csv_analyzer::report::{Analysis, Column, Ratio, Reading};

fn rank_of(value: f64) -> Option<i64> {
    if value.is_nan() {
        return None;
    }
    let bits = value.to_bits();
    let magnitude = (bits & 0x7fff_ffff_ffff_ffff) as i64;
    Some(if bits >> 63 == 1 { -magnitude } else { magnitude })
}

fn read_number(text: &str) -> Option<Reading> {
    let value: f64 = text.parse().ok()?;
    Some(Reading { rank: rank_of(value), text: value.to_string() })
}

fn analyze(cap: Option<usize>, content: &str) -> Analysis {
    let mut config = AnalyzerConfig::new();
    config.set_sample_size(cap);
    let engine = CSVAnalyzer::new(Some(config));
    engine.analyze(content, read_number).expect("the header row is readable")
}

fn column<'a>(analysis: &'a Analysis, name: &str) -> &'a Column {
    analysis.columns.iter().find(|column| column.name == name).expect("the column is there")
}

fn strings(items: &[&str]) -> Vec<String> {
    items.iter().map(|item| item.to_string()).collect()
}

#[test]
fn integer_columns_without_a_cap() {
    let analysis = analyze(None, "a,b\n1,2\n3,4\n");
    assert_eq!(analysis.detected_delimiter, ',');
    assert_eq!(analysis.row_count, 2);
    assert_eq!(analysis.column_count, 2);
    assert_eq!(analysis.sample_size, None);
    let a = column(&analysis, "a");
    assert_eq!(a.type_label, TypeLabel::Integer);
    assert_eq!(a.type_label.name(), "integer");
    assert_eq!(a.min_value.as_deref(), Some("1"));
    assert_eq!(a.max_value.as_deref(), Some("3"));
    assert_eq!(a.total_count, 2);
    assert_eq!(a.analyzed_count, 2);
    assert_eq!(a.valid_count, 2);
    assert_eq!(a.null_count, 0);
    assert_eq!(a.unique_values, 2);
    assert_eq!(a.min_length, 1);
    assert_eq!(a.max_length, 1);
    assert_eq!(a.sample_values, strings(&["1", "3"]));
    // "1" is a truth value before it is an integer; "3" is an integer.
    assert_eq!(a.type_details.confidence, Ratio { numerator: 1, denominator: 2 });
    assert_eq!(a.type_details.subtypes, vec![TypeLabel::Boolean, TypeLabel::Integer]);
    assert_eq!(a.type_details.format_examples, strings(&["1", "3"]));
    let b = column(&analysis, "b");
    assert_eq!(b.type_label, TypeLabel::Integer);
    assert_eq!(b.min_value.as_deref(), Some("2"));
    assert_eq!(b.max_value.as_deref(), Some("4"));
    assert_eq!(b.type_details.confidence, Ratio { numerator: 2, denominator: 2 });
    assert!(b.type_details.confidence.is_whole());
}

#[test]
fn half_of_the_values_are_addresses() {
    let analysis = analyze(None, "x\nfoo@bar.com\nbad-email\n");
    let x = column(&analysis, "x");
    assert_eq!(x.type_label, TypeLabel::Email);
    assert_eq!(x.type_details.confidence, Ratio { numerator: 1, denominator: 2 });
    assert_eq!(x.type_details.subtypes, vec![TypeLabel::Email, TypeLabel::Text]);
    assert_eq!(x.type_details.format_examples, strings(&["foo@bar.com", "bad-email"]));
    assert_eq!(x.min_value, None);
    assert_eq!(x.max_value, None);
    assert_eq!(x.min_length, 9);
    assert_eq!(x.max_length, 11);
}

#[test]
fn a_column_of_empty_strings_is_null() {
    let engine = CSVAnalyzer::new(None);
    let values = strings(&["", "", ""]);
    let profile = engine.profile_column("empty", &values, &Vec::new());
    assert_eq!(profile.total_count, 3);
    assert_eq!(profile.null_count, profile.total_count);
    assert_eq!(profile.valid_count, 0);
    assert_eq!(profile.type_label, TypeLabel::Null);
    assert_eq!(profile.type_label.name(), "null");
    assert_eq!(profile.type_details.confidence, Ratio { numerator: 1, denominator: 1 });
    assert!(profile.type_details.confidence.is_whole());
    assert!(profile.type_details.subtypes.is_empty());
    assert!(profile.type_details.format_examples.is_empty());
    assert_eq!(profile.min_length, 0);
    assert_eq!(profile.max_length, 0);
    assert_eq!(profile.min_value, None);
    assert_eq!(profile.max_value, None);
    assert_eq!(profile.unique_values, 1);
    assert!(profile.sample_values.is_empty());
    assert_eq!(profile.analyzed_count, 3);
}

#[test]
fn a_column_of_empty_fields_in_a_document_is_null() {
    let analysis = analyze(None, "a,b\n1,\n2,\n3,\n");
    let b = column(&analysis, "b");
    assert_eq!(b.total_count, 3);
    assert_eq!(b.null_count, 3);
    assert_eq!(b.type_label, TypeLabel::Null);
    assert_eq!(b.min_length, 0);
    assert_eq!(b.max_length, 0);
}

#[test]
fn a_cap_bounds_the_sample_but_not_the_counts() {
    let analysis = analyze(Some(2), "n\n1\n2\n3\n4\n5\n");
    assert_eq!(analysis.sample_size, Some(2));
    assert_eq!(analysis.row_count, 5);
    let n = column(&analysis, "n");
    assert_eq!(n.type_label, TypeLabel::Integer);
    assert_eq!(n.analyzed_count, 2);
    assert_eq!(n.min_value.as_deref(), Some("1"));
    assert_eq!(n.max_value.as_deref(), Some("2"));
    assert_eq!(n.unique_values, 5);
    assert_eq!(n.total_count, 5);
    assert_eq!(n.null_count, 0);
    assert_eq!(n.sample_values, strings(&["1", "2", "3", "4", "5"]));
}

#[test]
fn short_rows_leave_later_columns_shorter() {
    let table = CSVAnalyzer::read_table("a,b,c\n1,2,3\n4,5\n6,7,8,9\n").expect("readable");
    assert_eq!(table.headers, strings(&["a", "b", "c"]));
    assert_eq!(table.columns[0], strings(&["1", "4", "6"]));
    assert_eq!(table.columns[1], strings(&["2", "5", "7"]));
    assert_eq!(table.columns[2], strings(&["3", "8"]));
    let analysis = analyze(None, "a,b,c\n1,2,3\n4,5\n6,7,8,9\n");
    assert_eq!(analysis.row_count, 3);
    assert_eq!(analysis.column_count, 3);
    assert_eq!(column(&analysis, "a").total_count, 3);
    assert_eq!(column(&analysis, "c").total_count, 2);
}

#[test]
fn one_comma_and_one_pipe_give_the_pipe() {
    assert_eq!(CSVAnalyzer::detect_delimiter("a,b|c\n1,2,3\n"), '|');
    assert_eq!(CSVAnalyzer::detect_delimiter("a|b,c"), '|');
}

#[test]
fn the_separator_is_the_most_frequent_candidate() {
    assert_eq!(CSVAnalyzer::detect_delimiter("a,b,c\n1;2;3;4;5\n"), ',');
    assert_eq!(CSVAnalyzer::detect_delimiter("a;b;c,d"), ';');
    assert_eq!(CSVAnalyzer::detect_delimiter("a\tb\tc"), '\t');
    assert_eq!(CSVAnalyzer::detect_delimiter("a;b\tc"), '\t');
    assert_eq!(CSVAnalyzer::detect_delimiter("a,b;c"), ';');
    assert_eq!(CSVAnalyzer::detect_delimiter("a,b,c|d|e;f"), '|');
    assert_eq!(CSVAnalyzer::detect_delimiter("a,b,c|d;e"), ',');
}

#[test]
fn without_a_candidate_the_separator_is_the_comma() {
    assert_eq!(CSVAnalyzer::detect_delimiter(""), ',');
    assert_eq!(CSVAnalyzer::detect_delimiter("header\na|b|c\n"), ',');
    assert_eq!(CSVAnalyzer::detect_delimiter("\n|||"), ',');
}

#[test]
fn the_same_input_gives_the_same_report() {
    let content = "id;name;when\n1;ann;2024-01-02\n2;bob;2024-02-03\n;;\n3;cy;03/04/2024\n";
    let first = format!("{:?}", analyze(Some(3), content));
    let second = format!("{:?}", analyze(Some(3), content));
    assert_eq!(first, second);
}

#[test]
fn an_empty_document_has_no_columns() {
    let analysis = analyze(None, "");
    assert_eq!(analysis.column_count, 0);
    assert_eq!(analysis.row_count, 0);
    assert!(analysis.columns.is_empty());
    assert_eq!(analysis.detected_delimiter, ',');
}

#[test]
fn headers_of_one_name_give_one_column_twice() {
    let analysis = analyze(None, "k,v,k\n1,x,2\n3,y\n");
    assert_eq!(analysis.column_count, 3);
    assert_eq!(analysis.row_count, 2);
    assert_eq!(analysis.columns[0].name, "k");
    assert_eq!(analysis.columns[2].name, "k");
    assert_eq!(analysis.columns[0].sample_values, strings(&["2", "3"]));
    assert_eq!(analysis.columns[2].sample_values, strings(&["2", "3"]));
    assert_eq!(analysis.columns[1].sample_values, strings(&["x", "y"]));
}

#[test]
fn fields_are_trimmed_and_quotes_are_honoured() {
    let analysis = analyze(None, "name ; note\n ann ;\"a; b\"\n\n bob ; \n");
    assert_eq!(analysis.detected_delimiter, ';');
    assert_eq!(analysis.row_count, 2);
    assert_eq!(analysis.columns[0].name, "name");
    assert_eq!(analysis.columns[1].name, "note");
    assert_eq!(analysis.columns[0].sample_values, strings(&["ann", "bob"]));
    assert_eq!(analysis.columns[1].sample_values, strings(&["a; b"]));
    assert_eq!(analysis.columns[1].null_count, 1);
    assert_eq!(analysis.columns[1].valid_count, 1);
}

#[test]
fn counts_add_up_in_every_column() {
    let content = "a|b|c\n1|x|\n2||2024-01-01\n|y|\n2|x|2024-01-02\n5\n";
    for cap in [None, Some(0), Some(1), Some(3), Some(100)] {
        let analysis = analyze(cap, content);
        assert_eq!(analysis.sample_size, cap);
        assert_eq!(analysis.row_count, 5);
        for column in analysis.columns.iter() {
            assert!(column.unique_values <= column.total_count);
            assert!(column.null_count <= column.total_count);
            assert_eq!(column.valid_count + column.null_count, column.total_count);
            assert!(column.analyzed_count <= column.total_count);
            assert!(column.total_count <= analysis.row_count);
            let confidence = column.type_details.confidence;
            assert!(confidence.denominator > 0);
            assert!(confidence.numerator <= confidence.denominator);
            if cap.is_none() {
                assert_eq!(column.analyzed_count, column.total_count);
            }
            if column.type_label != TypeLabel::Null {
                assert!(column.type_details.subtypes.contains(&column.type_label));
            }
        }
    }
}
