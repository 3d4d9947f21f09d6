//! The analysis of a whole document: separator, table, and the profile of
//! each column in the order of the header row.

use crate::config::{sample_len, CSVAnalyzer};
use crate::delimiter::{byte_of_separator, delimiter_of, separator_byte};
use crate::grammar::with_decimal_points;
use crate::labels::{labels_of, TypeLabel};
use crate::records::{csv_header, csv_rows, error_text, read_document};
use crate::report::{
    reading_views, Analysis, AnalysisError, AnalysisView, Column, Reading, ReadingView,
};
use crate::sample::{is_numeric, profile_of, sample_of, sampled_texts};
use crate::table::{build_table, column_texts, columns_of, Table};
use crate::tally::primary_of;
use crate::text::{chars_of, push_char, texts, trim_text, trimmed};
use vstd::prelude::*;

verus! {

/// The text from which the number of a value is read: the value trimmed,
/// its commas taken for decimal points.
pub open spec fn numeric_text_of(value: Seq<char>) -> Seq<char> {
    with_decimal_points(trimmed(value))
}

/// The readings that belong to the column at `at`; none where none were
/// taken.
pub open spec fn readings_for(readings: Seq<Seq<Option<ReadingView>>>, at: int) -> Seq<
    Option<ReadingView>,
> {
    if 0 <= at < readings.len() {
        readings[at]
    } else {
        Seq::empty()
    }
}

/// The views of the readings of every column.
pub open spec fn all_reading_views(readings: Seq<Vec<Option<Reading>>>) -> Seq<
    Seq<Option<ReadingView>>,
> {
    Seq::new(readings.len(), |i: int| reading_views(readings[i]@))
}

/// The number of rows of a table with the columns `columns`: the length of
/// the first column.
pub open spec fn row_count_of(columns: Seq<Seq<Seq<char>>>) -> nat {
    if columns.len() == 0 {
        0
    } else {
        columns[0].len()
    }
}

/// The report on a table, made under the cap `cap`.
pub open spec fn analysis_of(
    cap: Option<usize>,
    delimiter: char,
    headers: Seq<Seq<char>>,
    columns: Seq<Seq<Seq<char>>>,
    readings: Seq<Seq<Option<ReadingView>>>,
) -> AnalysisView {
    AnalysisView {
        row_count: row_count_of(columns),
        column_count: headers.len(),
        columns: Seq::new(
            headers.len(),
            |at: int| profile_of(cap, headers[at], columns[at], readings_for(readings, at)),
        ),
        detected_delimiter: delimiter,
        sample_size: cap,
    }
}

/// The view of an optional reading.
pub open spec fn optional_reading(reading: Option<Reading>) -> Option<ReadingView> {
    match reading {
        Some(number) => Some(number@),
        None => None,
    }
}

/// Whether `read_number` may answer `reading` when asked for the number in
/// `text`.
pub open spec fn may_read<F: Fn(&str) -> Option<Reading>>(
    read_number: F,
    text: Seq<char>,
    reading: Option<ReadingView>,
) -> bool {
    exists|asked: &str, answer: Option<Reading>|
        asked@ == text && call_ensures(read_number, (asked,), answer) && optional_reading(answer)
            == reading
}

/// Whether `readings` are answers of `read_number` for the leading values
/// of `values`, one for one.
pub open spec fn read_from<F: Fn(&str) -> Option<Reading>>(
    read_number: F,
    values: Seq<Seq<char>>,
    readings: Seq<Option<ReadingView>>,
) -> bool {
    &&& readings.len() <= values.len()
    &&& forall|j: int|
        0 <= j < readings.len() ==> may_read(
            read_number,
            numeric_text_of(values[j]),
            #[trigger] readings[j],
        )
}

/// The number of values of a column from which a number is read: every
/// sampled value where the column is of a numeric type, and none otherwise.
pub open spec fn numbers_wanted(cap: Option<usize>, values: Seq<Seq<char>>) -> nat {
    if is_numeric(primary_of(labels_of(sampled_texts(sample_of(cap, values))))) {
        sample_len(cap, values.len())
    } else {
        0
    }
}

/// Whether `readings` hold, column by column, the answers of `read_number`
/// for the values from which a number is read.
pub open spec fn all_read_from<F: Fn(&str) -> Option<Reading>>(
    read_number: F,
    cap: Option<usize>,
    columns: Seq<Seq<Seq<char>>>,
    readings: Seq<Seq<Option<ReadingView>>>,
) -> bool {
    &&& readings.len() == columns.len()
    &&& forall|i: int|
        0 <= i < readings.len() ==> (#[trigger] readings[i]).len() == numbers_wanted(
            cap,
            columns[i],
        ) && read_from(read_number, columns[i], readings[i])
}

/// Whether `report` is a report on the table with the given headers and
/// columns, made under the cap `cap` from numbers that `read_number` read.
pub open spec fn reports_on<F: Fn(&str) -> Option<Reading>>(
    report: AnalysisView,
    cap: Option<usize>,
    delimiter: char,
    headers: Seq<Seq<char>>,
    columns: Seq<Seq<Seq<char>>>,
    read_number: F,
) -> bool {
    exists|readings: Seq<Seq<Option<ReadingView>>>|
        all_read_from(read_number, cap, columns, readings) && report == #[trigger] analysis_of(
            cap,
            delimiter,
            headers,
            columns,
            readings,
        )
}

/// The text from which the number of `value` is read.
pub fn numeric_text(value: &str) -> (text: String)
    ensures
        text@ == numeric_text_of(value@),
{
    let chars = chars_of(trim_text(value));
    let mut text = String::new();
    let mut i: usize = 0;
    while i < chars.len()
        invariant
            i <= chars.len(),
            chars@ == trimmed(value@),
            text@ == with_decimal_points(chars@).take(i as int),
        decreases chars.len() - i,
    {
        let c = chars[i];
        if c == ',' {
            push_char(&mut text, '.');
        } else {
            push_char(&mut text, c);
        }
        assert(with_decimal_points(chars@).take(i + 1) =~= with_decimal_points(chars@).take(
            i as int,
        ).push(with_decimal_points(chars@)[i as int]));
        i += 1;
    }
    assert(with_decimal_points(chars@).take(chars.len() as int) =~= with_decimal_points(chars@));
    text
}

/// Asks `read_number` for the number in each of the first `count` values,
/// or in all where there are fewer.
pub fn read_numbers<F: Fn(&str) -> Option<Reading>>(
    values: &Vec<String>,
    count: usize,
    read_number: &F,
) -> (readings: Vec<Option<Reading>>)
    requires
        forall|text: &str| call_requires(*read_number, (text,)),
    ensures
        readings@.len() == sample_len(Some(count), values@.len()),
        read_from(*read_number, texts(values@), reading_views(readings@)),
{
    let count = if count < values.len() {
        count
    } else {
        values.len()
    };
    let mut readings: Vec<Option<Reading>> = Vec::new();
    let mut j: usize = 0;
    while j < count
        invariant
            j <= count <= values.len(),
            readings@.len() == j,
            forall|text: &str| call_requires(*read_number, (text,)),
            read_from(*read_number, texts(values@), reading_views(readings@)),
        decreases count - j,
    {
        let text = numeric_text(values[j].as_str());
        let ghost before = reading_views(readings@);
        let asked = text.as_str();
        let answer = read_number(asked);
        proof {
            assert(may_read(
                *read_number,
                numeric_text_of(texts(values@)[j as int]),
                optional_reading(answer),
            )) by {
                assert(call_ensures(*read_number, (asked,), answer));
            }
        }
        readings.push(answer);
        proof {
            assert(reading_views(readings@) =~= before.push(optional_reading(answer)));
        }
        j += 1;
    }
    readings
}

impl CSVAnalyzer {
    /// Reads `content` into a table: finds the separator, splits the
    /// document into rows, and gives each header its column. Fails where
    /// the header row cannot be read, and only there.
    pub fn read_table(content: &str) -> (read: Result<Table, AnalysisError>)
        ensures
            read is Err <==> csv_header(content@, separator_byte(delimiter_of(content@))) is None,
            read matches Ok(table) ==> {
                let byte = separator_byte(delimiter_of(content@));
                &&& table.well_formed()
                &&& table.delimiter == delimiter_of(content@)
                &&& Some(texts(table.headers@)) == csv_header(content@, byte)
                &&& column_texts(table.columns@) == columns_of(
                    texts(table.headers@),
                    csv_rows(content@, byte),
                )
            },
    {
        let delimiter = Self::detect_delimiter(content);
        match read_document(content, byte_of_separator(delimiter)) {
            Ok(document) => {
                let (headers, rows) = document;
                Ok(build_table(delimiter, headers, &rows))
            },
            Err(error) => Err(AnalysisError::HeaderRead { detail: error_text(&error) }),
        }
    }

    /// The report on `table`; `readings[i][j]` is the number that the host
    /// read from the value `j` of the column `i`, where it read one.
    pub fn analyze_table(&self, table: &Table, readings: &Vec<Vec<Option<Reading>>>) -> (analysis:
        Analysis)
        requires
            table.well_formed(),
        ensures
            analysis@ == analysis_of(
                self.cap(),
                table.delimiter,
                texts(table.headers@),
                column_texts(table.columns@),
                all_reading_views(readings@),
            ),
    {
        let none: Vec<Option<Reading>> = Vec::new();
        let ghost names = texts(table.headers@);
        let ghost cells = column_texts(table.columns@);
        let ghost numbers = all_reading_views(readings@);
        let mut columns: Vec<Column> = Vec::new();
        let mut at: usize = 0;
        while at < table.headers.len()
            invariant
                at <= table.headers.len(),
                table.well_formed(),
                names == texts(table.headers@),
                cells == column_texts(table.columns@),
                numbers == all_reading_views(readings@),
                none@.len() == 0,
                columns@.len() == at,
                forall|k: int|
                    0 <= k < at ==> (#[trigger] columns@[k])@ == profile_of(
                        self.cap(),
                        names[k],
                        cells[k],
                        readings_for(numbers, k),
                    ),
            decreases table.headers.len() - at,
        {
            let taken = if at < readings.len() {
                &readings[at]
            } else {
                &none
            };
            assert(reading_views(taken@) =~= readings_for(numbers, at as int));
            let column = self.profile_column(table.headers[at].as_str(), &table.columns[at], taken);
            columns.push(column);
            at += 1;
        }
        let row_count = if table.columns.len() == 0 {
            0
        } else {
            table.columns[0].len()
        };
        let analysis = Analysis {
            row_count,
            column_count: table.headers.len(),
            columns,
            detected_delimiter: table.delimiter,
            sample_size: self.config().sample_size(),
        };
        assert(analysis@.columns =~= analysis_of(
            self.cap(),
            table.delimiter,
            names,
            cells,
            numbers,
        ).columns);
        analysis
    }

    /// The report on `table`, with the numbers of its numeric columns read
    /// by `read_number`, which is asked for each sampled value of such a
    /// column, in order, and for nothing else.
    pub fn analyze_with<F: Fn(&str) -> Option<Reading>>(&self, table: &Table, read_number: &F) -> (analysis:
        Analysis)
        requires
            table.well_formed(),
            forall|text: &str| call_requires(*read_number, (text,)),
        ensures
            reports_on(
                analysis@,
                self.cap(),
                table.delimiter,
                texts(table.headers@),
                column_texts(table.columns@),
                *read_number,
            ),
    {
        let ghost names = texts(table.headers@);
        let ghost cells = column_texts(table.columns@);
        let ghost mut taken: Seq<Seq<Option<ReadingView>>> = Seq::empty();
        let mut columns: Vec<Column> = Vec::new();
        let mut at: usize = 0;
        while at < table.headers.len()
            invariant
                at <= table.headers.len(),
                table.well_formed(),
                names == texts(table.headers@),
                cells == column_texts(table.columns@),
                forall|text: &str| call_requires(*read_number, (text,)),
                columns@.len() == at,
                taken.len() == at,
                forall|k: int|
                    0 <= k < at ==> (#[trigger] taken[k]).len() == numbers_wanted(
                        self.cap(),
                        cells[k],
                    ) && read_from(*read_number, cells[k], taken[k]),
                forall|k: int|
                    0 <= k < at ==> (#[trigger] columns@[k])@ == profile_of(
                        self.cap(),
                        names[k],
                        cells[k],
                        taken[k],
                    ),
            decreases table.headers.len() - at,
        {
            let values = &table.columns[at];
            let found = self.detect_column_type(values);
            let numbers = match found.0 {
                TypeLabel::Integer | TypeLabel::Float => read_numbers(values, found.2, read_number),
                _ => Vec::new(),
            };
            let column = self.complete_profile(table.headers[at].as_str(), values, found, &numbers);
            proof {
                assert(reading_views(numbers@).len() == 0 ==> read_from(
                    *read_number,
                    cells[at as int],
                    reading_views(numbers@),
                ));
                taken = taken.push(reading_views(numbers@));
            }
            columns.push(column);
            at += 1;
        }
        let row_count = if table.columns.len() == 0 {
            0
        } else {
            table.columns[0].len()
        };
        let analysis = Analysis {
            row_count,
            column_count: table.headers.len(),
            columns,
            detected_delimiter: table.delimiter,
            sample_size: self.config().sample_size(),
        };
        proof {
            let expected = analysis_of(self.cap(), table.delimiter, names, cells, taken);
            assert(analysis@.columns =~= expected.columns);
            assert(all_read_from(*read_number, self.cap(), cells, taken));
            assert(analysis@ == expected);
        }
        analysis
    }

    /// The report on the document `content`, or the reason why none can be
    /// made: detects the separator, splits the document, and profiles each
    /// column in the order of the header row. `read_number` stands for the
    /// host's floating-point arithmetic; it is asked for the number in each
    /// sampled value of a numeric column. The analysis fails where the
    /// header row cannot be read, and only there.
    pub fn analyze<F: Fn(&str) -> Option<Reading>>(&self, content: &str, read_number: F) -> (report:
        Result<Analysis, AnalysisError>)
        requires
            forall|text: &str| call_requires(read_number, (text,)),
        ensures
            report is Err <==> csv_header(content@, separator_byte(delimiter_of(content@))) is None,
            report matches Ok(analysis) ==> {
                let byte = separator_byte(delimiter_of(content@));
                let headers = csv_header(content@, byte)->0;
                reports_on(
                    analysis@,
                    self.cap(),
                    delimiter_of(content@),
                    headers,
                    columns_of(headers, csv_rows(content@, byte)),
                    read_number,
                )
            },
    {
        match Self::read_table(content) {
            Ok(table) => Ok(self.analyze_with(&table, &read_number)),
            Err(error) => Err(error),
        }
    }
}

} // verus!
