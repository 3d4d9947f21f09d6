//! From rows to columns: each header receives, row by row, the field that
//! stands under its name.

use crate::text::texts;
use vstd::prelude::*;

verus! {

/// A document read into columns. `columns[i]` holds the values that the
/// rows gave to `headers[i]`, in the order of the rows.
#[derive(Clone, Debug)]
pub struct Table {
    pub delimiter: char,
    pub headers: Vec<String>,
    pub columns: Vec<Vec<String>>,
}

/// The views of the rows of a document, `None` for a row that could not be
/// read.
pub open spec fn row_texts(rows: Seq<Option<Vec<String>>>) -> Seq<Option<Seq<Seq<char>>>> {
    Seq::new(
        rows.len(),
        |i: int|
            match rows[i] {
                Some(fields) => Some(texts(fields@)),
                None => None,
            },
    )
}

/// The views of the columns of a table.
pub open spec fn column_texts(columns: Seq<Vec<String>>) -> Seq<Seq<Seq<char>>> {
    Seq::new(columns.len(), |i: int| texts(columns[i]@))
}

/// The number of fields of a row that stand under a header: fields beyond
/// the width of the header row are left out.
pub open spec fn covered(headers: Seq<Seq<char>>, row: Seq<Seq<char>>) -> int {
    if row.len() < headers.len() {
        row.len() as int
    } else {
        headers.len() as int
    }
}

/// The last position before `below` at which `headers` holds `name`.
pub open spec fn last_position(headers: Seq<Seq<char>>, below: int, name: Seq<char>) -> Option<
    int,
>
    decreases below,
{
    if below <= 0 {
        None
    } else if headers[below - 1] == name {
        Some(below - 1)
    } else {
        last_position(headers, below - 1, name)
    }
}

/// The value that `row` gives to the header at `at`: headers of one name
/// share one value, and of the fields under that name the last one counts.
/// A row too short to reach the name gives it nothing.
pub open spec fn field_for(headers: Seq<Seq<char>>, row: Seq<Seq<char>>, at: int) -> Option<
    Seq<char>,
> {
    match last_position(headers, covered(headers, row), headers[at]) {
        Some(position) => Some(row[position]),
        None => None,
    }
}

/// The values that `rows` give to the header at `at`. A row that could not
/// be read is passed over.
pub open spec fn column_of(
    headers: Seq<Seq<char>>,
    rows: Seq<Option<Seq<Seq<char>>>>,
    at: int,
) -> Seq<Seq<char>>
    decreases rows.len(),
{
    if rows.len() == 0 {
        Seq::empty()
    } else {
        let before = column_of(headers, rows.drop_last(), at);
        match rows.last() {
            Some(row) => match field_for(headers, row, at) {
                Some(value) => before.push(value),
                None => before,
            },
            None => before,
        }
    }
}

/// The columns that `rows` fill under `headers`.
pub open spec fn columns_of(headers: Seq<Seq<char>>, rows: Seq<Option<Seq<Seq<char>>>>) -> Seq<
    Seq<Seq<char>>,
> {
    Seq::new(headers.len(), |at: int| column_of(headers, rows, at))
}

/// Whether no name occurs twice in `headers`.
pub open spec fn distinct(headers: Seq<Seq<char>>) -> bool {
    forall|i: int, j: int|
        0 <= i < j < headers.len() ==> #[trigger] headers[i] != #[trigger] headers[j]
}

impl Table {
    /// Every header has its column.
    pub open spec fn well_formed(&self) -> bool {
        self.columns@.len() == self.headers@.len()
    }
}

/// A position that is found lies before `below` and holds the name.
pub proof fn lemma_last_position_in_range(headers: Seq<Seq<char>>, below: int, name: Seq<char>)
    requires
        below <= headers.len(),
    ensures
        last_position(headers, below, name) matches Some(position) ==> 0 <= position < below
            && headers[position] == name,
    decreases below,
{
    if below > 0 && headers[below - 1] != name {
        lemma_last_position_in_range(headers, below - 1, name);
    }
}

/// Among distinct headers a name is found at its own position or not at
/// all.
pub proof fn lemma_last_position_distinct(headers: Seq<Seq<char>>, below: int, at: int)
    requires
        distinct(headers),
        0 <= at < headers.len(),
        below <= headers.len(),
    ensures
        last_position(headers, below, headers[at]) == if at < below {
            Some(at)
        } else {
            None::<int>
        },
    decreases below,
{
    if below > 0 {
        if headers[below - 1] == headers[at] {
            if below - 1 < at {
                assert(headers[below - 1] != headers[at]);
            } else if at < below - 1 {
                assert(headers[at] != headers[below - 1]);
            }
        } else {
            lemma_last_position_distinct(headers, below - 1, at);
        }
    }
}

/// A row that gives a value to any header gives one to the first.
pub proof fn lemma_first_header_is_served(headers: Seq<Seq<char>>, row: Seq<Seq<char>>, at: int)
    requires
        0 <= at < headers.len(),
    ensures
        field_for(headers, row, at) is Some ==> field_for(headers, row, 0) is Some,
{
    let below = covered(headers, row);
    lemma_last_position_in_range(headers, below, headers[at]);
    if field_for(headers, row, at) is Some {
        lemma_last_position_reaches(headers, below, 0);
    }
}

/// A name that stands before `below` is found.
proof fn lemma_last_position_reaches(headers: Seq<Seq<char>>, below: int, at: int)
    requires
        0 <= at < below <= headers.len(),
    ensures
        last_position(headers, below, headers[at]) is Some,
    decreases below,
{
    if headers[below - 1] != headers[at] {
        lemma_last_position_reaches(headers, below - 1, at);
    }
}

/// No column is longer than the first, and none is longer than the number
/// of rows.
pub proof fn lemma_first_column_is_longest(
    headers: Seq<Seq<char>>,
    rows: Seq<Option<Seq<Seq<char>>>>,
    at: int,
)
    requires
        0 <= at < headers.len(),
    ensures
        column_of(headers, rows, at).len() <= column_of(headers, rows, 0).len() <= rows.len(),
    decreases rows.len(),
{
    if rows.len() > 0 {
        lemma_first_column_is_longest(headers, rows.drop_last(), at);
        if let Some(row) = rows.last() {
            lemma_first_header_is_served(headers, row, at);
        }
    }
}

/// Whether no name occurs twice in `headers`.
pub fn all_distinct(headers: &Vec<String>) -> (r: bool)
    ensures
        r == distinct(texts(headers@)),
{
    let ghost names = texts(headers@);
    let mut j: usize = 0;
    while j < headers.len()
        invariant
            j <= headers.len(),
            names == texts(headers@),
            forall|a: int, b: int| 0 <= a < b < j ==> #[trigger] names[a] != #[trigger] names[b],
        decreases headers.len() - j,
    {
        let mut i: usize = 0;
        while i < j
            invariant
                i <= j < headers.len(),
                names == texts(headers@),
                forall|a: int| 0 <= a < i ==> #[trigger] names[a] != names[j as int],
            decreases j - i,
        {
            if headers[i] == headers[j] {
                assert(names[i as int] == names[j as int]);
                return false;
            }
            i += 1;
        }
        j += 1;
    }
    true
}

/// The last position before `below` at which `headers` holds `name`.
fn find_last(headers: &Vec<String>, below: usize, name: &String) -> (found: Option<usize>)
    requires
        below <= headers.len(),
    ensures
        match found {
            Some(position) => last_position(texts(headers@), below as int, name@) == Some(
                position as int,
            ),
            None => last_position(texts(headers@), below as int, name@) is None,
        },
{
    let ghost names = texts(headers@);
    let mut at: usize = below;
    while at > 0
        invariant
            at <= below <= headers.len(),
            names == texts(headers@),
            last_position(names, below as int, name@) == last_position(names, at as int, name@),
        decreases at,
    {
        if headers[at - 1] == *name {
            assert(names[at - 1] == name@);
            return Some(at - 1);
        }
        assert(names[at - 1] != name@);
        at -= 1;
    }
    None
}

/// The values that `rows` give to the header at `at`; `unique_names` says
/// whether the headers are distinct, in which case a field is found at the
/// place of its header without a search.
fn gather_column(
    headers: &Vec<String>,
    rows: &Vec<Option<Vec<String>>>,
    at: usize,
    unique_names: bool,
) -> (column: Vec<String>)
    requires
        at < headers.len(),
        unique_names == distinct(texts(headers@)),
    ensures
        texts(column@) == column_of(texts(headers@), row_texts(rows@), at as int),
{
    let ghost names = texts(headers@);
    let ghost lines = row_texts(rows@);
    let mut column: Vec<String> = Vec::new();
    let mut r: usize = 0;
    while r < rows.len()
        invariant
            r <= rows.len(),
            at < headers.len(),
            names == texts(headers@),
            lines == row_texts(rows@),
            unique_names == distinct(names),
            texts(column@) == column_of(names, lines.take(r as int), at as int),
        decreases rows.len() - r,
    {
        let ghost before = texts(column@);
        proof {
            assert(lines.take(r + 1).drop_last() =~= lines.take(r as int));
            assert(lines.take(r + 1).last() == lines[r as int]);
        }
        match &rows[r] {
            Some(row) => {
                let below = if row.len() < headers.len() {
                    row.len()
                } else {
                    headers.len()
                };
                assert(below == covered(names, texts(row@)));
                let found = if unique_names {
                    proof {
                        lemma_last_position_distinct(names, below as int, at as int);
                    }
                    if at < below {
                        Some(at)
                    } else {
                        None
                    }
                } else {
                    find_last(headers, below, &headers[at])
                };
                match found {
                    Some(position) => {
                        proof {
                            lemma_last_position_in_range(names, below as int, names[at as int]);
                        }
                        column.push(row[position].clone());
                        assert(texts(column@) =~= before.push(texts(row@)[position as int]));
                    },
                    None => {},
                }
            },
            None => {},
        }
        r += 1;
    }
    assert(lines.take(rows.len() as int) =~= lines);
    column
}

/// Distributes the fields of `rows` over the columns of `headers`.
pub fn build_table(delimiter: char, headers: Vec<String>, rows: &Vec<Option<Vec<String>>>) -> (table:
    Table)
    ensures
        table.well_formed(),
        table.delimiter == delimiter,
        table.headers == headers,
        column_texts(table.columns@) == columns_of(texts(headers@), row_texts(rows@)),
{
    let unique_names = all_distinct(&headers);
    let ghost names = texts(headers@);
    let ghost lines = row_texts(rows@);
    let mut columns: Vec<Vec<String>> = Vec::new();
    let mut at: usize = 0;
    while at < headers.len()
        invariant
            at <= headers.len(),
            names == texts(headers@),
            lines == row_texts(rows@),
            unique_names == distinct(names),
            columns@.len() == at,
            forall|k: int| 0 <= k < at ==> texts(#[trigger] columns@[k]@) == column_of(names, lines, k),
        decreases headers.len() - at,
    {
        let column = gather_column(&headers, rows, at, unique_names);
        columns.push(column);
        at += 1;
    }
    assert(column_texts(columns@) =~= columns_of(names, lines));
    Table { delimiter, headers, columns }
}

} // verus!
