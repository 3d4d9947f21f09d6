//! What the statistics of a column are, stated over the texts of its values.

use crate::config::sample_len;
use crate::labels::{labels_of, TypeLabel};
use crate::report::{ColumnView, ReadingView, TypeDetailsView};
use crate::tally::{confidence_of, primary_of, subtypes_of};
use crate::text::{byte_len, is_blank, text_le, trimmed};
use vstd::prelude::*;

verus! {

/// The number of distinct examples kept as evidence of a type.
pub const EXAMPLE_LIMIT: usize = 3;

/// The number of values of a column that are shown in its profile.
pub const SHOWN_LIMIT: usize = 5;

/// The leading values of a column that the statistics examine.
pub open spec fn sample_of(cap: Option<usize>, values: Seq<Seq<char>>) -> Seq<Seq<char>> {
    values.take(sample_len(cap, values.len()) as int)
}

/// The values that are not blank, trimmed, in their order.
pub open spec fn sampled_texts(values: Seq<Seq<char>>) -> Seq<Seq<char>>
    decreases values.len(),
{
    if values.len() == 0 {
        Seq::empty()
    } else if is_blank(values.last()) {
        sampled_texts(values.drop_last())
    } else {
        sampled_texts(values.drop_last()).push(trimmed(values.last()))
    }
}

/// How many of the values are blank.
pub open spec fn blank_count(values: Seq<Seq<char>>) -> nat
    decreases values.len(),
{
    if values.len() == 0 {
        0
    } else {
        blank_count(values.drop_last()) + if is_blank(values.last()) {
            1nat
        } else {
            0nat
        }
    }
}

/// The first values that are not blank, as they stand, up to `limit` of
/// them.
pub open spec fn first_filled(values: Seq<Seq<char>>, limit: nat) -> Seq<Seq<char>>
    decreases values.len(),
{
    if values.len() == 0 {
        Seq::empty()
    } else {
        let before = first_filled(values.drop_last(), limit);
        if before.len() < limit && !is_blank(values.last()) {
            before.push(values.last())
        } else {
            before
        }
    }
}

/// The first distinct items, in the order in which they are first seen, up
/// to `limit` of them.
pub open spec fn first_distinct(items: Seq<Seq<char>>, limit: nat) -> Seq<Seq<char>>
    decreases items.len(),
{
    if items.len() == 0 {
        Seq::empty()
    } else {
        let before = first_distinct(items.drop_last(), limit);
        if before.len() < limit && !before.contains(items.last()) {
            before.push(items.last())
        } else {
            before
        }
    }
}

/// The text that comes first in the order of texts.
pub open spec fn least_text(items: Seq<Seq<char>>) -> Option<Seq<char>>
    decreases items.len(),
{
    if items.len() == 0 {
        None
    } else {
        match least_text(items.drop_last()) {
            Some(best) => if text_le(best, items.last()) {
                Some(best)
            } else {
                Some(items.last())
            },
            None => Some(items.last()),
        }
    }
}

/// The text that comes last in the order of texts.
pub open spec fn greatest_text(items: Seq<Seq<char>>) -> Option<Seq<char>>
    decreases items.len(),
{
    if items.len() == 0 {
        None
    } else {
        match greatest_text(items.drop_last()) {
            Some(best) => if text_le(best, items.last()) {
                Some(items.last())
            } else {
                Some(best)
            },
            None => Some(items.last()),
        }
    }
}

/// The length in bytes of the shortest text; 0 where there is none.
pub open spec fn shortest(items: Seq<Seq<char>>) -> nat
    decreases items.len(),
{
    if items.len() == 0 {
        0
    } else if items.len() == 1 {
        byte_len(items.last())
    } else {
        let before = shortest(items.drop_last());
        if byte_len(items.last()) < before {
            byte_len(items.last())
        } else {
            before
        }
    }
}

/// The length in bytes of the longest text; 0 where there is none.
pub open spec fn longest(items: Seq<Seq<char>>) -> nat
    decreases items.len(),
{
    if items.len() == 0 {
        0
    } else {
        let before = longest(items.drop_last());
        if byte_len(items.last()) > before {
            byte_len(items.last())
        } else {
            before
        }
    }
}

/// The readings that are there, in their order.
pub open spec fn present(readings: Seq<Option<ReadingView>>) -> Seq<ReadingView>
    decreases readings.len(),
{
    if readings.len() == 0 {
        Seq::empty()
    } else {
        match readings.last() {
            Some(reading) => present(readings.drop_last()).push(reading),
            None => present(readings.drop_last()),
        }
    }
}

/// Whether `a` is known to be greater than `b`. A reading without a rank is
/// neither greater nor less than any other.
pub open spec fn exceeds(a: ReadingView, b: ReadingView) -> bool {
    match (a.rank, b.rank) {
        (Some(left), Some(right)) => left > right,
        _ => false,
    }
}

/// The lowest of the numbers, as a pass over them finds it: the number in
/// hand gives way to the next one only where it is known to be greater.
pub open spec fn lowest(numbers: Seq<ReadingView>) -> Option<ReadingView>
    decreases numbers.len(),
{
    if numbers.len() == 0 {
        None
    } else {
        match lowest(numbers.drop_last()) {
            Some(best) => if exceeds(best, numbers.last()) {
                Some(numbers.last())
            } else {
                Some(best)
            },
            None => Some(numbers.last()),
        }
    }
}

/// The highest of the numbers, as a pass over them finds it: the number in
/// hand stays only where it is known to be greater than the next one.
pub open spec fn highest(numbers: Seq<ReadingView>) -> Option<ReadingView>
    decreases numbers.len(),
{
    if numbers.len() == 0 {
        None
    } else {
        match highest(numbers.drop_last()) {
            Some(best) => if exceeds(best, numbers.last()) {
                Some(best)
            } else {
                Some(numbers.last())
            },
            None => Some(numbers.last()),
        }
    }
}

/// The readings that belong to the sample of a column of `total` values.
pub open spec fn sampled_readings(
    cap: Option<usize>,
    total: nat,
    readings: Seq<Option<ReadingView>>,
) -> Seq<ReadingView> {
    let size = sample_len(cap, total);
    present(
        readings.take(
            if size < readings.len() {
                size as int
            } else {
                readings.len() as int
            },
        ),
    )
}

/// The text of a reading, if there is one.
pub open spec fn reading_text(reading: Option<ReadingView>) -> Option<Seq<char>> {
    match reading {
        Some(number) => Some(number.text),
        None => None,
    }
}

/// The types whose range is a range of numbers.
pub open spec fn is_numeric(label: TypeLabel) -> bool {
    label == TypeLabel::Integer || label == TypeLabel::Float
}

/// The types whose range is a range of texts.
pub open spec fn is_textual(label: TypeLabel) -> bool {
    label == TypeLabel::Date || label == TypeLabel::DateTime || label == TypeLabel::Time || label
        == TypeLabel::Text
}

/// The least value of a column of type `label`.
pub open spec fn min_of(label: TypeLabel, items: Seq<Seq<char>>, numbers: Seq<ReadingView>) -> Option<
    Seq<char>,
> {
    if is_numeric(label) {
        reading_text(lowest(numbers))
    } else if is_textual(label) {
        least_text(items)
    } else {
        None
    }
}

/// The greatest value of a column of type `label`.
pub open spec fn max_of(label: TypeLabel, items: Seq<Seq<char>>, numbers: Seq<ReadingView>) -> Option<
    Seq<char>,
> {
    if is_numeric(label) {
        reading_text(highest(numbers))
    } else if is_textual(label) {
        greatest_text(items)
    } else {
        None
    }
}

/// The evidence behind the type of a column whose sampled texts are `items`.
pub open spec fn details_of(items: Seq<Seq<char>>) -> TypeDetailsView {
    TypeDetailsView {
        subtypes: subtypes_of(labels_of(items)),
        confidence: confidence_of(labels_of(items)),
        format_examples: first_distinct(items, EXAMPLE_LIMIT as nat),
    }
}

/// The profile of the column `name` with the values `values`, examined
/// under the cap `cap`, where `readings` are the numbers that the host read
/// from the leading values.
pub open spec fn profile_of(
    cap: Option<usize>,
    name: Seq<char>,
    values: Seq<Seq<char>>,
    readings: Seq<Option<ReadingView>>,
) -> ColumnView {
    let items = sampled_texts(sample_of(cap, values));
    let numbers = sampled_readings(cap, values.len(), readings);
    let label = primary_of(labels_of(items));
    ColumnView {
        name,
        type_label: label,
        type_details: details_of(items),
        unique_values: values.to_set().len(),
        null_count: blank_count(values),
        min_value: min_of(label, items, numbers),
        max_value: max_of(label, items, numbers),
        min_length: shortest(items),
        max_length: longest(items),
        sample_values: first_filled(values, SHOWN_LIMIT as nat),
        valid_count: (values.len() - blank_count(values)) as nat,
        total_count: values.len(),
        analyzed_count: sample_len(cap, values.len()),
    }
}

/// No more values are blank than there are values.
pub proof fn lemma_blank_count_bounded(values: Seq<Seq<char>>)
    ensures
        blank_count(values) <= values.len(),
    decreases values.len(),
{
    if values.len() > 0 {
        lemma_blank_count_bounded(values.drop_last());
    }
}

/// One more value adds its trimmed text to the sample unless it is blank.
pub proof fn lemma_sampled_texts_step(values: Seq<Seq<char>>, i: int)
    requires
        0 <= i < values.len(),
    ensures
        sampled_texts(values.take(i + 1)) == if is_blank(values[i]) {
            sampled_texts(values.take(i))
        } else {
            sampled_texts(values.take(i)).push(trimmed(values[i]))
        },
{
    assert(values.take(i + 1).drop_last() =~= values.take(i));
}

} // verus!
