use csv_analyzer::config::CSVAnalyzer;
use csv_analyzer::labels::TypeLabel;
use csv_analyzer::text::trim_text;

#[test]
fn truth_values_in_any_case() {
    for word in ["true", "FALSE", "1", "0", "Yes", "no", "OUI", "non"] {
        assert!(CSVAnalyzer::is_boolean(word), "{}", word);
    }
    for word in ["", "2", "y", "n", "truee", " true", "vrai"] {
        assert!(!CSVAnalyzer::is_boolean(word), "{}", word);
    }
}

#[test]
fn integers_are_held_to_sixty_four_bits() {
    for text in ["7", "-7", "+7", "0007", "9223372036854775807", "-9223372036854775808"] {
        assert!(CSVAnalyzer::is_integer(text), "{}", text);
        assert_eq!(CSVAnalyzer::is_integer(text), text.parse::<i64>().is_ok());
    }
    for text in ["", "-", "+", "1.0", "1e3", "9223372036854775808", "-9223372036854775809", "1_000", " 1", "٣"] {
        assert!(!CSVAnalyzer::is_integer(text), "{}", text);
        assert_eq!(CSVAnalyzer::is_integer(text), text.parse::<i64>().is_ok());
    }
}

#[test]
fn floats_follow_the_literal_grammar() {
    let samples = [
        "1", "1.5", "1,5", ".5", "5.", ".", "", "+", "-", "1e5", "1E5", "1e", "1e+", "1e+5", "e5",
        "inf", "-inf", "+Infinity", "INFINITY", "infinit", "nan", "NaN", "-nan", "1.2.3", "1,2,3",
        "0x10", "1f", " 1", "1 ", "١", "1e999999999999999999999", "-.5e-3", "+.e3", "..", "1..",
        "1e5.5", "--1", "+-1", "in", "na",
    ];
    for text in samples {
        let expected = text.replace(',', ".").parse::<f64>().is_ok();
        assert_eq!(CSVAnalyzer::is_float(text), expected, "{:?}", text);
    }
}

#[test]
fn cascade_picks_the_first_match() {
    assert_eq!(CSVAnalyzer::classify("1"), TypeLabel::Boolean);
    assert_eq!(CSVAnalyzer::classify("12"), TypeLabel::Integer);
    assert_eq!(CSVAnalyzer::classify("12.5"), TypeLabel::Float);
    assert_eq!(CSVAnalyzer::classify("2024-01-31"), TypeLabel::Date);
    assert_eq!(CSVAnalyzer::classify("31/01/2024"), TypeLabel::Date);
    assert_eq!(CSVAnalyzer::classify("2024-01-31T10:20:30.5Z"), TypeLabel::DateTime);
    assert_eq!(CSVAnalyzer::classify("2024-01-31 10:20+02:00"), TypeLabel::DateTime);
    assert_eq!(CSVAnalyzer::classify("10:20"), TypeLabel::Time);
    assert_eq!(CSVAnalyzer::classify("10:20:30.25"), TypeLabel::Time);
    assert_eq!(CSVAnalyzer::classify("foo@bar.com"), TypeLabel::Email);
    assert_eq!(CSVAnalyzer::classify("https://example.org/a?b=c"), TypeLabel::Url);
    assert_eq!(CSVAnalyzer::classify("example.org"), TypeLabel::Url);
    assert_eq!(CSVAnalyzer::classify("192.168.0.1"), TypeLabel::Ip);
    assert_eq!(CSVAnalyzer::classify("2001:0db8:85a3:0000:0000:8a2e:0370:7334"), TypeLabel::Ip);
    assert_eq!(CSVAnalyzer::classify("bad-email"), TypeLabel::Text);
    assert_eq!(CSVAnalyzer::classify("hello world"), TypeLabel::Text);
}

#[test]
fn trimming_removes_unicode_white_space() {
    assert_eq!(trim_text("  a b \t\n"), "a b");
    assert_eq!(trim_text("\u{3000}x\u{a0}"), "x");
    assert_eq!(trim_text(" \u{2003} "), "");
    assert_eq!(trim_text(""), "");
    assert_eq!(trim_text("é "), "é");
    for text in ["  a b \t\n", "\u{3000}x\u{a0}", "\u{85}y\u{1680}", "\u{200b}z", "\u{1c}q\u{1f}"] {
        assert_eq!(trim_text(text), text.trim());
    }
}

#[test]
fn truth_values_fold_case_as_lowercasing_does() {
    let samples = [
        "TRUE", "True", "tRuE", "FALSE", "YES", "No", "Oui", "NON", "OUİ", "ouı", "\u{212a}",
        "ＴＲＵＥ", "true ", "ｎｏ", "nO", "İ", "1", "０", "oυi",
    ];
    for text in samples {
        let lower = text.to_lowercase();
        let expected =
            matches!(lower.as_str(), "true" | "false" | "1" | "0" | "yes" | "no" | "oui" | "non");
        assert_eq!(CSVAnalyzer::is_boolean(text), expected, "{:?}", text);
    }
}

#[test]
fn values_are_classified_together_as_they_are_alone() {
    let values: Vec<String> = [
        "yes", "12", "-3.5", "1,5", "2024-01-31", "01/02/2024", "2024-01-31T10:20", "23:59",
        "a.b@c.de", "http://x.yz/p", "10.0.0.1", "1:2:3:4:5:6:7:8", "plain text", "nan", "",
        "٢٠٢٤-٠١-٣١", "1e5", "2024-1-31", "99:99", "not@valid", "ftp://x.yz", "::1",
    ]
    .iter()
    .map(|text| text.to_string())
    .collect();
    let together = CSVAnalyzer::classify_all(&values);
    assert_eq!(together.len(), values.len());
    for (value, label) in values.iter().zip(together.iter()) {
        assert_eq!(CSVAnalyzer::classify(value), *label, "{:?}", value);
        assert_ne!(*label, TypeLabel::Null);
    }
    assert_eq!(together[0], TypeLabel::Boolean);
    assert_eq!(together[3], TypeLabel::Float);
    assert_eq!(together[13], TypeLabel::Float);
    assert_eq!(together[14], TypeLabel::Text);
    assert_eq!(together[15], TypeLabel::Date);
    assert_eq!(together[16], TypeLabel::Float);
    assert_eq!(together[17], TypeLabel::Text);
    assert_eq!(together[18], TypeLabel::Time);
    assert_eq!(together[19], TypeLabel::Text);
    assert_eq!(together[20], TypeLabel::Text);
    assert_eq!(together[21], TypeLabel::Text);
    assert!(CSVAnalyzer::classify_all(&Vec::new()).is_empty());
    let numbers: Vec<String> = ["1", "2", "3.5"].iter().map(|text| text.to_string()).collect();
    assert_eq!(
        CSVAnalyzer::classify_all(&numbers),
        vec![TypeLabel::Boolean, TypeLabel::Integer, TypeLabel::Float]
    );
}

#[test]
fn grammar_settles_truth_values_and_numbers_only() {
    assert_eq!(CSVAnalyzer::classify_by_grammar("oui"), Some(TypeLabel::Boolean));
    assert_eq!(CSVAnalyzer::classify_by_grammar("0"), Some(TypeLabel::Boolean));
    assert_eq!(CSVAnalyzer::classify_by_grammar("-17"), Some(TypeLabel::Integer));
    assert_eq!(CSVAnalyzer::classify_by_grammar("9223372036854775808"), Some(TypeLabel::Float));
    assert_eq!(CSVAnalyzer::classify_by_grammar("3,25"), Some(TypeLabel::Float));
    assert_eq!(CSVAnalyzer::classify_by_grammar("2024-01-31"), None);
    assert_eq!(CSVAnalyzer::classify_by_grammar("x"), None);
    assert_eq!(CSVAnalyzer::classify_by_grammar(""), None);
}

fn words_over(alphabet: &[char], longest: usize) -> Vec<String> {
    let mut words = vec![String::new()];
    let mut from = 0;
    for _ in 0..longest {
        let upto = words.len();
        for at in from..upto {
            for letter in alphabet {
                let mut word = words[at].clone();
                word.push(*letter);
                words.push(word);
            }
        }
        from = upto;
    }
    words
}

#[test]
fn float_grammar_agrees_with_the_parser_on_short_texts() {
    let alphabet = ['0', '7', '.', ',', 'e', 'E', '+', '-', 'i', 'n', 'f', 'a', 'N', ' '];
    for text in words_over(&alphabet, 4) {
        let expected = text.replace(',', ".").parse::<f64>().is_ok();
        assert_eq!(CSVAnalyzer::is_float(&text), expected, "{:?}", text);
    }
    for text in ["infinity", "INFINITY", "-Infinity", "+infinity", "infinit", "infinityy", "1e+07"] {
        assert_eq!(CSVAnalyzer::is_float(text), text.parse::<f64>().is_ok(), "{:?}", text);
    }
}

#[test]
fn integer_grammar_agrees_with_the_parser_on_short_texts() {
    let alphabet = ['0', '1', '9', '+', '-', '.', ' ', '_', 'e'];
    for text in words_over(&alphabet, 4) {
        assert_eq!(CSVAnalyzer::is_integer(&text), text.parse::<i64>().is_ok(), "{:?}", text);
    }
    for digits in ["9223372036854775806", "9223372036854775807", "9223372036854775808",
        "9223372036854775809", "18446744073709551615", "18446744073709551616",
        "00000000000000000000009223372036854775807", "99999999999999999999999999999999"]
    {
        for sign in ["", "+", "-"] {
            let text = format!("{}{}", sign, digits);
            assert_eq!(CSVAnalyzer::is_integer(&text), text.parse::<i64>().is_ok(), "{:?}", text);
        }
    }
}
