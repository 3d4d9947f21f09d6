//! The shapes of a report: the profile of a column, the evidence behind its
//! type, and the analysis of a whole document, each with its mathematical
//! view.

use crate::labels::TypeLabel;
use crate::text::texts;
use vstd::prelude::*;

verus! {

/// A share of a whole, kept as the two counts it was taken from.
#[derive(Clone, Copy, Debug, PartialEq, Eq, Structural)]
pub struct Ratio {
    pub numerator: usize,
    pub denominator: usize,
}

/// A number as the host's floating-point arithmetic read it from a field:
/// its canonical decimal text, and a rank that orders numbers as their
/// values do. Equal values have equal ranks. A value that is not a number
/// and therefore compares with nothing has no rank.
#[derive(Clone, Debug)]
pub struct Reading {
    pub rank: Option<i64>,
    pub text: String,
}

/// The evidence behind the type of a column.
#[derive(Clone, Debug)]
pub struct TypeDetails {
    pub subtypes: Vec<TypeLabel>,
    pub confidence: Ratio,
    pub format_examples: Vec<String>,
}

/// The profile of one column.
#[derive(Clone, Debug)]
pub struct Column {
    pub name: String,
    pub type_label: TypeLabel,
    pub type_details: TypeDetails,
    pub unique_values: usize,
    pub null_count: usize,
    pub min_value: Option<String>,
    pub max_value: Option<String>,
    pub min_length: usize,
    pub max_length: usize,
    pub sample_values: Vec<String>,
    pub valid_count: usize,
    pub total_count: usize,
    pub analyzed_count: usize,
}

/// The report on a document.
#[derive(Clone, Debug)]
pub struct Analysis {
    pub row_count: usize,
    pub column_count: usize,
    pub columns: Vec<Column>,
    pub detected_delimiter: char,
    pub sample_size: Option<usize>,
}

/// Why no report could be made.
#[derive(Clone, Debug)]
pub enum AnalysisError {
    /// The header row could not be read; `detail` says what the reader of
    /// the document said of it.
    HeaderRead { detail: String },
}

/// A share as a pair of numbers: part and whole.
pub struct Share {
    pub part: nat,
    pub whole: nat,
}

/// A reading as a mathematical value.
pub struct ReadingView {
    pub rank: Option<i64>,
    pub text: Seq<char>,
}

/// The evidence behind a type as a mathematical value.
pub struct TypeDetailsView {
    pub subtypes: Seq<TypeLabel>,
    pub confidence: Share,
    pub format_examples: Seq<Seq<char>>,
}

/// The profile of a column as a mathematical value.
pub struct ColumnView {
    pub name: Seq<char>,
    pub type_label: TypeLabel,
    pub type_details: TypeDetailsView,
    pub unique_values: nat,
    pub null_count: nat,
    pub min_value: Option<Seq<char>>,
    pub max_value: Option<Seq<char>>,
    pub min_length: nat,
    pub max_length: nat,
    pub sample_values: Seq<Seq<char>>,
    pub valid_count: nat,
    pub total_count: nat,
    pub analyzed_count: nat,
}

/// A report as a mathematical value.
pub struct AnalysisView {
    pub row_count: nat,
    pub column_count: nat,
    pub columns: Seq<ColumnView>,
    pub detected_delimiter: char,
    pub sample_size: Option<usize>,
}

/// The view of an optional string.
pub open spec fn optional_text(value: Option<String>) -> Option<Seq<char>> {
    match value {
        Some(text) => Some(text@),
        None => None,
    }
}

/// The views of a sequence of optional readings.
pub open spec fn reading_views(readings: Seq<Option<Reading>>) -> Seq<Option<ReadingView>> {
    Seq::new(
        readings.len(),
        |i: int|
            match readings[i] {
                Some(reading) => Some(reading@),
                None => None,
            },
    )
}

/// The views of a sequence of columns.
pub open spec fn column_views(columns: Seq<Column>) -> Seq<ColumnView> {
    Seq::new(columns.len(), |i: int| columns[i]@)
}

impl Share {
    /// A share lies between nothing and the whole.
    pub open spec fn well_formed(self) -> bool {
        0 < self.whole && self.part <= self.whole
    }

    /// Whether the share is the whole.
    pub open spec fn is_whole(self) -> bool {
        self.part == self.whole
    }
}

impl View for Ratio {
    type V = Share;

    open spec fn view(&self) -> Share {
        Share { part: self.numerator as nat, whole: self.denominator as nat }
    }
}

impl View for Reading {
    type V = ReadingView;

    open spec fn view(&self) -> ReadingView {
        ReadingView { rank: self.rank, text: self.text@ }
    }
}

impl View for TypeDetails {
    type V = TypeDetailsView;

    open spec fn view(&self) -> TypeDetailsView {
        TypeDetailsView {
            subtypes: self.subtypes@,
            confidence: self.confidence@,
            format_examples: texts(self.format_examples@),
        }
    }
}

impl View for Column {
    type V = ColumnView;

    open spec fn view(&self) -> ColumnView {
        ColumnView {
            name: self.name@,
            type_label: self.type_label,
            type_details: self.type_details@,
            unique_values: self.unique_values as nat,
            null_count: self.null_count as nat,
            min_value: optional_text(self.min_value),
            max_value: optional_text(self.max_value),
            min_length: self.min_length as nat,
            max_length: self.max_length as nat,
            sample_values: texts(self.sample_values@),
            valid_count: self.valid_count as nat,
            total_count: self.total_count as nat,
            analyzed_count: self.analyzed_count as nat,
        }
    }
}

impl View for Analysis {
    type V = AnalysisView;

    open spec fn view(&self) -> AnalysisView {
        AnalysisView {
            row_count: self.row_count as nat,
            column_count: self.column_count as nat,
            columns: column_views(self.columns@),
            detected_delimiter: self.detected_delimiter,
            sample_size: self.sample_size,
        }
    }
}

impl Ratio {
    /// Whether this share is the whole.
    pub fn is_whole(&self) -> (r: bool)
        ensures
            r == self@.is_whole(),
    {
        self.numerator == self.denominator
    }
}

} // verus!
