//! The passes over the values of one column: classification, range, length,
//! and the counts that are taken over the whole column.

use crate::config::{sample_len, CSVAnalyzer};
use crate::labels::{labels_of, TypeLabel};
use crate::report::{
    optional_text, reading_views, Column, Reading, ReadingView, TypeDetails,
};
use crate::sample::{
    blank_count, details_of, exceeds, first_distinct, first_filled, greatest_text, highest,
    least_text, lemma_blank_count_bounded, lemma_sampled_texts_step, longest, lowest, max_of,
    min_of, present, profile_of, reading_text, sample_of, sampled_readings, sampled_texts,
    shortest, EXAMPLE_LIMIT, SHOWN_LIMIT,
};
use crate::tally::{primary_of, summarize};
use crate::text::{byte_len, holds, is_blank_text, text_precedes, texts, trim_text};
use vstd::hash_set::StringHashSet;
use vstd::prelude::*;

verus! {

/// The smaller of a count and the number of items that there are.
fn at_most(count: usize, total: usize) -> (size: usize)
    ensures
        size == sample_len(Some(count), total as nat),
{
    if count < total {
        count
    } else {
        total
    }
}

/// The sampled texts of a column: its first `count` values, or all where
/// there are fewer, trimmed, the blank ones left out.
pub fn sampled_values(values: &Vec<String>, count: usize) -> (sampled: Vec<String>)
    ensures
        texts(sampled@) == sampled_texts(sample_of(Some(count), texts(values@))),
{
    let count = at_most(count, values.len());
    let ghost all = texts(values@);
    let mut sampled: Vec<String> = Vec::new();
    let mut i: usize = 0;
    while i < count
        invariant
            i <= count <= values.len(),
            all == texts(values@),
            texts(sampled@) == sampled_texts(all.take(i as int)),
        decreases count - i,
    {
        let ghost before = texts(sampled@);
        proof {
            lemma_sampled_texts_step(all, i as int);
        }
        let text = trim_text(values[i].as_str());
        if !text.is_empty() {
            sampled.push(text.to_owned());
            assert(texts(sampled@) =~= before.push(text@));
        }
        i += 1;
    }
    sampled
}

/// The first distinct texts among `items`, up to three of them.
pub fn first_examples(items: &Vec<String>) -> (examples: Vec<String>)
    ensures
        texts(examples@) == first_distinct(texts(items@), EXAMPLE_LIMIT as nat),
{
    let ghost all = texts(items@);
    let mut examples: Vec<String> = Vec::new();
    let mut i: usize = 0;
    while i < items.len()
        invariant
            i <= items.len(),
            all == texts(items@),
            texts(examples@) == first_distinct(all.take(i as int), EXAMPLE_LIMIT as nat),
        decreases items.len() - i,
    {
        let ghost kept = texts(examples@);
        assert(all.take(i + 1).drop_last() =~= all.take(i as int));
        if examples.len() < EXAMPLE_LIMIT && !holds(&examples, &items[i]) {
            examples.push(items[i].clone());
            assert(texts(examples@) =~= kept.push(all[i as int]));
        }
        i += 1;
    }
    assert(all.take(items.len() as int) =~= all);
    examples
}

impl CSVAnalyzer {
    /// The type of a column: the label that most of its sampled values
    /// bear, the evidence for it, and the number of values examined.
    pub fn detect_column_type(&self, values: &Vec<String>) -> (found: (TypeLabel, TypeDetails, usize))
        ensures
            found.0 == primary_of(labels_of(sampled_texts(sample_of(self.cap(), texts(values@))))),
            found.1@ == details_of(sampled_texts(sample_of(self.cap(), texts(values@)))),
            found.2 == sample_len(self.cap(), values@.len()),
    {
        let size = self.get_sample_size(values.len());
        let sampled = sampled_values(values, size);
        let labels = Self::classify_all(&sampled);
        let examples = first_examples(&sampled);
        let (primary, confidence, subtypes) = summarize(&labels);
        (primary, TypeDetails { subtypes, confidence, format_examples: examples }, size)
    }
}

/// One more value leaves the shortest and the longest length as they are
/// when it is blank, and is weighed against them otherwise.
proof fn lemma_lengths_push(items: Seq<Seq<char>>, item: Seq<char>)
    ensures
        shortest(items.push(item)) == if items.len() == 0 || byte_len(item) < shortest(
            items,
        ) {
            byte_len(item)
        } else {
            shortest(items)
        },
        longest(items.push(item)) == if byte_len(item) > longest(items) {
            byte_len(item)
        } else {
            longest(items)
        },
{
    assert(items.push(item).drop_last() =~= items);
}

impl CSVAnalyzer {
    /// The lengths in bytes of the shortest and of the longest sampled
    /// value, both 0 where every sampled value is blank, and the number of
    /// values examined.
    pub fn find_length_stats(&self, values: &Vec<String>) -> (found: (usize, usize, usize))
        ensures
            found.0 == shortest(sampled_texts(sample_of(self.cap(), texts(values@)))),
            found.1 == longest(sampled_texts(sample_of(self.cap(), texts(values@)))),
            found.2 == sample_len(self.cap(), values@.len()),
    {
        let size = self.get_sample_size(values.len());
        let ghost all = texts(values@);
        let mut min_length: usize = 0;
        let mut max_length: usize = 0;
        let mut any = false;
        let mut i: usize = 0;
        while i < size
            invariant
                i <= size <= values.len(),
                all == texts(values@),
                any == (sampled_texts(all.take(i as int)).len() > 0),
                min_length == shortest(sampled_texts(all.take(i as int))),
                max_length == longest(sampled_texts(all.take(i as int))),
            decreases size - i,
        {
            let ghost seen = sampled_texts(all.take(i as int));
            proof {
                lemma_sampled_texts_step(all, i as int);
            }
            let text = trim_text(values[i].as_str());
            if !text.is_empty() {
                let length = text.as_bytes().len();
                proof {
                    lemma_lengths_push(seen, text@);
                }
                if !any || length < min_length {
                    min_length = length;
                }
                if length > max_length {
                    max_length = length;
                }
                any = true;
            }
            i += 1;
        }
        (min_length, max_length, size)
    }
}

/// The view of an optional text.
pub open spec fn borrowed_text(value: Option<&str>) -> Option<Seq<char>> {
    match value {
        Some(text) => Some(text@),
        None => None,
    }
}

/// The reading at `at`, if `at` names one.
pub open spec fn reading_at(readings: Seq<Option<Reading>>, at: Option<usize>) -> Option<
    ReadingView,
> {
    match at {
        Some(k) => match readings[k as int] {
            Some(reading) => Some(reading@),
            None => None,
        },
        None => None,
    }
}

/// One more reading is added to those present unless it is missing.
proof fn lemma_present_step(readings: Seq<Option<ReadingView>>, i: int)
    requires
        0 <= i < readings.len(),
    ensures
        present(readings.take(i + 1)) == match readings[i] {
            Some(reading) => present(readings.take(i)).push(reading),
            None => present(readings.take(i)),
        },
{
    assert(readings.take(i + 1).drop_last() =~= readings.take(i));
}

/// Whether `a` is known to be greater than `b`.
pub fn reading_exceeds(a: &Reading, b: &Reading) -> (r: bool)
    ensures
        r == exceeds(a@, b@),
{
    match (a.rank, b.rank) {
        (Some(left), Some(right)) => left > right,
        _ => false,
    }
}

/// The texts of the lowest and of the highest among the first `count`
/// readings, or among all where there are fewer, as a pass over them finds
/// the two.
pub fn reading_range(readings: &Vec<Option<Reading>>, count: usize) -> (found: (
    Option<String>,
    Option<String>,
))
    ensures
        optional_text(found.0) == reading_text(
            lowest(sampled_readings(Some(count), readings@.len(), reading_views(readings@))),
        ),
        optional_text(found.1) == reading_text(
            highest(sampled_readings(Some(count), readings@.len(), reading_views(readings@))),
        ),
{
    let count = at_most(count, readings.len());
    let ghost all = reading_views(readings@);
    let mut low: Option<usize> = None;
    let mut high: Option<usize> = None;
    let mut i: usize = 0;
    while i < count
        invariant
            i <= count <= readings.len(),
            all == reading_views(readings@),
            low matches Some(k) ==> k < i && readings@[k as int] is Some,
            high matches Some(k) ==> k < i && readings@[k as int] is Some,
            reading_at(readings@, low) == lowest(present(all.take(i as int))),
            reading_at(readings@, high) == highest(present(all.take(i as int))),
        decreases count - i,
    {
        proof {
            lemma_present_step(all, i as int);
            if let Some(number) = all[i as int] {
                let before = present(all.take(i as int));
                assert(before.push(number).drop_last() =~= before);
            }
        }
        match &readings[i] {
            Some(reading) => {
                assert(all[i as int] == Some(reading@));
                match low {
                    Some(k) => {
                        match &readings[k] {
                            Some(best) => {
                                if reading_exceeds(best, reading) {
                                    low = Some(i);
                                }
                            },
                            None => {},
                        }
                    },
                    None => {
                        low = Some(i);
                    },
                }
                match high {
                    Some(k) => {
                        match &readings[k] {
                            Some(best) => {
                                if !reading_exceeds(best, reading) {
                                    high = Some(i);
                                }
                            },
                            None => {},
                        }
                    },
                    None => {
                        high = Some(i);
                    },
                }
            },
            None => {
                assert(all[i as int] is None);
            },
        }
        i += 1;
    }
    let lowest_text = match low {
        Some(k) => match &readings[k] {
            Some(reading) => Some(reading.text.clone()),
            None => None,
        },
        None => None,
    };
    let highest_text = match high {
        Some(k) => match &readings[k] {
            Some(reading) => Some(reading.text.clone()),
            None => None,
        },
        None => None,
    };
    (lowest_text, highest_text)
}

/// The first and the last, in the order of texts, of the first `count`
/// values, or of all where there are fewer, once trimmed, the blank ones
/// left out.
pub fn text_range(values: &Vec<String>, count: usize) -> (found: (Option<String>, Option<String>))
    ensures
        optional_text(found.0) == least_text(
            sampled_texts(sample_of(Some(count), texts(values@))),
        ),
        optional_text(found.1) == greatest_text(
            sampled_texts(sample_of(Some(count), texts(values@))),
        ),
{
    let count = at_most(count, values.len());
    let ghost all = texts(values@);
    let mut least: Option<&str> = None;
    let mut greatest: Option<&str> = None;
    let mut i: usize = 0;
    while i < count
        invariant
            i <= count <= values.len(),
            all == texts(values@),
            borrowed_text(least) == least_text(sampled_texts(all.take(i as int))),
            borrowed_text(greatest) == greatest_text(sampled_texts(all.take(i as int))),
        decreases count - i,
    {
        let ghost seen = sampled_texts(all.take(i as int));
        proof {
            lemma_sampled_texts_step(all, i as int);
        }
        let text = trim_text(values[i].as_str());
        if !text.is_empty() {
            assert(seen.push(text@).drop_last() =~= seen);
            least = match least {
                Some(best) => if text_precedes(best, text) {
                    Some(best)
                } else {
                    Some(text)
                },
                None => Some(text),
            };
            greatest = match greatest {
                Some(best) => if text_precedes(best, text) {
                    Some(text)
                } else {
                    Some(best)
                },
                None => Some(text),
            };
        }
        i += 1;
    }
    let first = match least {
        Some(text) => Some(text.to_owned()),
        None => None,
    };
    let last = match greatest {
        Some(text) => Some(text.to_owned()),
        None => None,
    };
    (first, last)
}

impl CSVAnalyzer {
    /// The least and the greatest sampled value of a column of type
    /// `label`, and the number of values examined. Numbers are ordered by
    /// the readings that the host took of the leading values, `readings[i]`
    /// being that of `values[i]`; dates, times and strings are ordered as
    /// texts; the other types have no range.
    pub fn find_min_max(
        &self,
        values: &Vec<String>,
        label: TypeLabel,
        readings: &Vec<Option<Reading>>,
    ) -> (found: (Option<String>, Option<String>, usize))
        ensures
            optional_text(found.0) == min_of(
                label,
                sampled_texts(sample_of(self.cap(), texts(values@))),
                sampled_readings(self.cap(), values@.len(), reading_views(readings@)),
            ),
            optional_text(found.1) == max_of(
                label,
                sampled_texts(sample_of(self.cap(), texts(values@))),
                sampled_readings(self.cap(), values@.len(), reading_views(readings@)),
            ),
            found.2 == sample_len(self.cap(), values@.len()),
    {
        let size = self.get_sample_size(values.len());
        match label {
            TypeLabel::Integer | TypeLabel::Float => {
                let count = if size < readings.len() {
                    size
                } else {
                    readings.len()
                };
                let (low, high) = reading_range(readings, count);
                (low, high, size)
            },
            TypeLabel::Date | TypeLabel::DateTime | TypeLabel::Time | TypeLabel::Text => {
                let (first, last) = text_range(values, size);
                (first, last, size)
            },
            _ => (None, None, size),
        }
    }
}

/// The number of distinct values of a column, told apart as they stand.
pub fn count_distinct(values: &Vec<String>) -> (count: usize)
    ensures
        count == texts(values@).to_set().len(),
{
    let ghost all = texts(values@);
    let mut seen = StringHashSet::new();
    let mut i: usize = 0;
    assert(all.take(0).to_set() =~= Set::<Seq<char>>::empty());
    while i < values.len()
        invariant
            i <= values.len(),
            all == texts(values@),
            seen@ == all.take(i as int).to_set(),
        decreases values.len() - i,
    {
        proof {
            assert(all.take(i + 1) =~= all.take(i as int).push(all[i as int]));
            all.take(i as int).lemma_push_to_set_commute(all[i as int]);
        }
        seen.insert(values[i].clone());
        i += 1;
    }
    assert(all.take(values.len() as int) =~= all);
    seen.len()
}

/// The number of blank values of a column.
pub fn count_blank(values: &Vec<String>) -> (count: usize)
    ensures
        count == blank_count(texts(values@)),
{
    let ghost all = texts(values@);
    let mut count: usize = 0;
    let mut i: usize = 0;
    while i < values.len()
        invariant
            i <= values.len(),
            all == texts(values@),
            count == blank_count(all.take(i as int)),
            count <= i,
        decreases values.len() - i,
    {
        assert(all.take(i + 1).drop_last() =~= all.take(i as int));
        if is_blank_text(values[i].as_str()) {
            count += 1;
        }
        i += 1;
    }
    assert(all.take(values.len() as int) =~= all);
    count
}

/// The first values of a column that are not blank, as they stand, up to
/// five of them.
pub fn first_values(values: &Vec<String>) -> (shown: Vec<String>)
    ensures
        texts(shown@) == first_filled(texts(values@), SHOWN_LIMIT as nat),
{
    let ghost all = texts(values@);
    let mut shown: Vec<String> = Vec::new();
    let mut i: usize = 0;
    while i < values.len()
        invariant
            i <= values.len(),
            all == texts(values@),
            texts(shown@) == first_filled(all.take(i as int), SHOWN_LIMIT as nat),
        decreases values.len() - i,
    {
        let ghost before = texts(shown@);
        assert(all.take(i + 1).drop_last() =~= all.take(i as int));
        if shown.len() < SHOWN_LIMIT && !is_blank_text(values[i].as_str()) {
            shown.push(values[i].clone());
            assert(texts(shown@) =~= before.push(all[i as int]));
        }
        i += 1;
    }
    assert(all.take(values.len() as int) =~= all);
    shown
}

impl CSVAnalyzer {
    /// The profile of the column `name` with the values `values`;
    /// `readings[i]` is the number that the host read from `values[i]`,
    /// where it read one.
    pub fn profile_column(
        &self,
        name: &str,
        values: &Vec<String>,
        readings: &Vec<Option<Reading>>,
    ) -> (column: Column)
        ensures
            column@ == profile_of(self.cap(), name@, texts(values@), reading_views(readings@)),
    {
        let found = self.detect_column_type(values);
        self.complete_profile(name, values, found, readings)
    }

    /// The profile of a column whose type has been found already.
    pub(crate) fn complete_profile(
        &self,
        name: &str,
        values: &Vec<String>,
        found: (TypeLabel, TypeDetails, usize),
        readings: &Vec<Option<Reading>>,
    ) -> (column: Column)
        requires
            found.0 == primary_of(labels_of(sampled_texts(sample_of(self.cap(), texts(values@))))),
            found.1@ == details_of(sampled_texts(sample_of(self.cap(), texts(values@)))),
            found.2 == sample_len(self.cap(), values@.len()),
        ensures
            column@ == profile_of(self.cap(), name@, texts(values@), reading_views(readings@)),
    {
        let unique_values = count_distinct(values);
        let null_count = count_blank(values);
        let (type_label, type_details, type_analyzed) = found;
        let (min_value, max_value, range_analyzed) = self.find_min_max(values, type_label, readings);
        let (min_length, max_length, length_analyzed) = self.find_length_stats(values);
        let sample_values = first_values(values);
        let total_count = values.len();
        proof {
            lemma_blank_count_bounded(texts(values@));
        }
        let valid_count = total_count - null_count;
        let narrower = if range_analyzed < length_analyzed {
            range_analyzed
        } else {
            length_analyzed
        };
        let analyzed_count = if type_analyzed < narrower {
            type_analyzed
        } else {
            narrower
        };
        Column {
            name: name.to_owned(),
            type_label,
            type_details,
            unique_values,
            null_count,
            min_value,
            max_value,
            min_length,
            max_length,
            sample_values,
            valid_count,
            total_count,
            analyzed_count,
        }
    }
}

} // verus!
