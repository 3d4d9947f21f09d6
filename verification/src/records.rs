//! Splitting a document into a header row and data rows with the `csv`
//! crate. What the crate makes of quotes, line ends and empty lines is not
//! restated here: the rows it yields are given names, and the engine builds
//! on the names.

use crate::table::row_texts;
use crate::text::texts;
use vstd::prelude::*;

verus! {

/// The error type of the `csv` crate, `csv::Error`. Nothing is known of a
/// value of it but what `error_text` reports.
#[verifier::external_type_specification]
#[verifier::external_body]
pub struct ExCsvError(csv::Error);

/// The header row that the `csv` crate reads from `content` with the given
/// delimiter (`csv::Reader::headers`), or `None` where it reports an error.
pub uninterp spec fn csv_header(content: Seq<char>, delimiter: u8) -> Option<Seq<Seq<char>>>;

/// The rows that the `csv` crate yields after the header row
/// (`csv::Reader::records`), in their order; `None` stands for a row that
/// it could not read.
pub uninterp spec fn csv_rows(content: Seq<char>, delimiter: u8) -> Seq<Option<Seq<Seq<char>>>>;

/// Whether `byte` stands for one of the separators that the engine picks
/// from.
pub open spec fn is_separator_byte(byte: u8) -> bool {
    byte == 44 || byte == 59 || byte == 9 || byte == 124
}

/// Reads `content` with a reader that `csv::ReaderBuilder` makes for the
/// given delimiter, with trimming of headers and fields and with rows of
/// any length allowed: first `csv::Reader::headers`, then every item of
/// `csv::Reader::records`. Header and rows depend on the content and the
/// delimiter alone, so the contract gives them the names `csv_header` and
/// `csv_rows`; it claims that an error on the header row is the only way to
/// fail, and that a row which the reader reports as an error comes back as
/// `None`. The fields are copied as they are.
#[verifier::external_body]
pub(crate) fn read_document(content: &str, delimiter: u8) -> (parsed: Result<
    (Vec<String>, Vec<Option<Vec<String>>>),
    csv::Error,
>)
    requires
        is_separator_byte(delimiter),
    ensures
        parsed is Ok <==> csv_header(content@, delimiter) is Some,
        parsed matches Ok(document) ==> {
            &&& Some(texts(document.0@)) == csv_header(content@, delimiter)
            &&& row_texts(document.1@) == csv_rows(content@, delimiter)
        },
{
    let mut reader = csv::ReaderBuilder::new()
        .delimiter(delimiter)
        .trim(csv::Trim::All)
        .flexible(true)
        .from_reader(content.as_bytes());
    let header = reader.headers()?.iter().map(|field| field.to_string()).collect();
    let rows = reader
        .records()
        .map(|row| row.ok().map(|record| record.iter().map(|field| field.to_string()).collect()))
        .collect();
    Ok((header, rows))
}

/// What a `csv::Error` says of itself when displayed. Nothing is claimed of
/// the text.
#[verifier::external_body]
pub(crate) fn error_text(error: &csv::Error) -> (text: String) {
    format!("{}", error)
}

} // verus!
