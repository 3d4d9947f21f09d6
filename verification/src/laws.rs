//! What holds of every report, proved from the definitions that the
//! contracts of the engine are stated in.

use crate::analysis::{all_read_from, analysis_of, optional_reading, reports_on};
use crate::config::sample_len;
use crate::delimiter::{delimiter_of, first_line, occurrences, separator_of};
use crate::labels::{label_of, labels_of, TypeLabel};
use crate::report::{AnalysisView, Reading, ReadingView};
use crate::sample::{
    first_distinct, first_filled, greatest_text, highest, least_text,
    lemma_blank_count_bounded, longest, lowest, profile_of, sample_of, sampled_texts, shortest,
};
use crate::table::{columns_of, lemma_first_column_is_longest};
use crate::tally::{
    confidence_of, has_share, leading_rank, lemma_leading_rank, lemma_tally_bounded,
    lemma_tally_full, primary_of, rank_tally, subtypes_below, subtypes_of, tally,
};
use crate::text::{
    byte_len, is_blank, lemma_precedes_antisymmetric, lemma_precedes_reflexive,
    lemma_precedes_total, lemma_precedes_transitive, lemma_trim_end_stops,
    lemma_trim_start_skips, lemma_trimmed_bounds, text_le, trimmed,
};
use vstd::prelude::*;

verus! {

/// No more values are examined than the column has, and all of them are
/// where the cap is no smaller than the column.
pub proof fn law_sample_within_column(cap: Option<usize>, total: nat)
    ensures
        sample_len(cap, total) <= total,
        cap matches Some(size) ==> sample_len(cap, total) <= size,
        cap matches Some(size) ==> (size >= total ==> sample_len(cap, total) == total),
        cap is None ==> sample_len(cap, total) == total,
{
}

/// Without a cap every value of a column is examined.
pub proof fn law_without_cap_every_value_is_examined(
    name: Seq<char>,
    values: Seq<Seq<char>>,
    readings: Seq<Option<ReadingView>>,
)
    ensures
        profile_of(None, name, values, readings).analyzed_count == profile_of(
            None,
            name,
            values,
            readings,
        ).total_count,
{
}

/// In every profile the distinct values and the blank values are no more
/// than the values, and the values are either blank or valid.
pub proof fn law_counts_add_up(
    cap: Option<usize>,
    name: Seq<char>,
    values: Seq<Seq<char>>,
    readings: Seq<Option<ReadingView>>,
)
    ensures
        ({
            let profile = profile_of(cap, name, values, readings);
            &&& profile.unique_values <= profile.total_count
            &&& profile.null_count <= profile.total_count
            &&& profile.valid_count + profile.null_count == profile.total_count
            &&& profile.analyzed_count <= profile.total_count
        }),
{
    values.lemma_cardinality_of_set();
    lemma_blank_count_bounded(values);
}

/// The cascade never gives the label `Null`.
pub proof fn law_values_are_never_null(value: Seq<char>)
    ensures
        label_of(value) != TypeLabel::Null,
        label_of(value).rank() <= 9,
{
}

/// The confidence in the type of a column is a share between nothing and
/// the whole, and it is the whole exactly when all sampled values that are
/// not blank bear the same label.
pub proof fn law_confidence(
    cap: Option<usize>,
    name: Seq<char>,
    values: Seq<Seq<char>>,
    readings: Seq<Option<ReadingView>>,
)
    ensures
        ({
            let confidence = profile_of(cap, name, values, readings).type_details.confidence;
            let labels = labels_of(sampled_texts(sample_of(cap, values)));
            &&& confidence.well_formed()
            &&& confidence.is_whole() <==> forall|i: int, j: int|
                0 <= i < labels.len() && 0 <= j < labels.len() ==> labels[i] == labels[j]
        }),
{
    let labels = labels_of(sampled_texts(sample_of(cap, values)));
    assert forall|i: int| 0 <= i < labels.len() implies labels[i] != TypeLabel::Null by {
        law_values_are_never_null(sampled_texts(sample_of(cap, values))[i]);
    }
    law_confidence_of_labels(labels);
}

/// The confidence that labels give, none of them `Null`, is a share
/// between nothing and the whole, and the whole exactly when the labels are
/// all the same.
pub proof fn law_confidence_of_labels(labels: Seq<TypeLabel>)
    requires
        forall|i: int| 0 <= i < labels.len() ==> labels[i] != TypeLabel::Null,
    ensures
        confidence_of(labels).well_formed(),
        confidence_of(labels).is_whole() <==> forall|i: int, j: int|
            0 <= i < labels.len() && 0 <= j < labels.len() ==> labels[i] == labels[j],
{
    if labels.len() > 0 {
        let primary = primary_of(labels);
        lemma_tally_bounded(labels, primary);
        lemma_tally_full(labels, primary);
        lemma_leading_rank(labels, 9);
        if forall|i: int, j: int|
            0 <= i < labels.len() && 0 <= j < labels.len() ==> labels[i] == labels[j] {
            let only = labels[0];
            assert forall|i: int| 0 <= i < labels.len() implies labels[i] == only by {}
            lemma_tally_full(labels, only);
            assert(TypeLabel::at_rank(only.rank()) == only);
            assert(rank_tally(labels, only.rank() as int) == labels.len());
            assert(rank_tally(labels, leading_rank(labels, 9) as int) >= labels.len());
        }
    }
}

/// Two reports on the same table, made under the same cap by a reader of
/// numbers that answers the same text in the same way, are the same
/// report.
pub proof fn law_same_input_same_report<F: Fn(&str) -> Option<Reading>>(
    first: AnalysisView,
    second: AnalysisView,
    cap: Option<usize>,
    delimiter: char,
    headers: Seq<Seq<char>>,
    columns: Seq<Seq<Seq<char>>>,
    read_number: F,
)
    requires
        reports_on(first, cap, delimiter, headers, columns, read_number),
        reports_on(second, cap, delimiter, headers, columns, read_number),
        forall|asked: &str, again: &str, answer: Option<Reading>, other: Option<Reading>|
            asked@ == again@ && #[trigger] call_ensures(read_number, (asked,), answer)
                && #[trigger] call_ensures(read_number, (again,), other) ==> optional_reading(
                answer,
            ) == optional_reading(other),
    ensures
        first == second,
{
    let one = choose|readings: Seq<Seq<Option<ReadingView>>>|
        all_read_from(read_number, cap, columns, readings) && first == #[trigger] analysis_of(
            cap,
            delimiter,
            headers,
            columns,
            readings,
        );
    let two = choose|readings: Seq<Seq<Option<ReadingView>>>|
        all_read_from(read_number, cap, columns, readings) && second == #[trigger] analysis_of(
            cap,
            delimiter,
            headers,
            columns,
            readings,
        );
    assert forall|i: int| 0 <= i < one.len() implies one[i] == two[i] by {
        assert(one[i].len() == two[i].len());
        assert(one[i] =~= two[i]);
    }
    assert(one =~= two);
}

/// The report on a table is a function of the table, the cap and the
/// readings: the same input gives the same report.
pub proof fn law_report_is_determined(
    first: AnalysisView,
    second: AnalysisView,
    cap: Option<usize>,
    delimiter: char,
    headers: Seq<Seq<char>>,
    columns: Seq<Seq<Seq<char>>>,
    readings: Seq<Seq<Option<ReadingView>>>,
)
    requires
        first == analysis_of(cap, delimiter, headers, columns, readings),
        second == analysis_of(cap, delimiter, headers, columns, readings),
    ensures
        first == second,
{
}

/// A first line with one comma, one pipe and neither semicolon nor tab
/// calls for the pipe: of two candidates that occur equally often the later
/// one is taken.
pub proof fn law_pipe_wins_tie_with_comma(content: Seq<char>)
    requires
        occurrences(first_line(content), ',') == 1,
        occurrences(first_line(content), '|') == 1,
        occurrences(first_line(content), ';') == 0,
        occurrences(first_line(content), '\t') == 0,
    ensures
        delimiter_of(content) == '|',
{
}

/// The separator of a line occurs in it at least as often as every other
/// candidate, and more often than the candidates that come after it in the
/// order comma, semicolon, tab, pipe, unless no candidate occurs at all.
pub proof fn law_separator_is_last_most_frequent(line: Seq<char>)
    ensures
        ({
            let chosen = occurrences(line, separator_of(line));
            &&& occurrences(line, ',') <= chosen
            &&& occurrences(line, ';') <= chosen
            &&& occurrences(line, '\t') <= chosen
            &&& occurrences(line, '|') <= chosen
            &&& chosen > 0 ==> {
                &&& separator_of(line) == ',' ==> occurrences(line, ';') < chosen
                &&& separator_of(line) == ',' || separator_of(line) == ';' ==> occurrences(
                    line,
                    '\t',
                ) < chosen
                &&& separator_of(line) != '|' ==> occurrences(line, '|') < chosen
            }
            &&& chosen == 0 ==> separator_of(line) == ','
        }),
{
}

/// The order of texts is a total order.
pub proof fn law_text_order(a: Seq<char>, b: Seq<char>, c: Seq<char>)
    ensures
        text_le(a, a),
        text_le(a, b) || text_le(b, a),
        text_le(a, b) && text_le(b, a) ==> a == b,
        text_le(a, b) && text_le(b, c) ==> text_le(a, c),
{
    lemma_precedes_reflexive(a, 0);
    lemma_precedes_total(a, b, 0);
    if text_le(a, b) && text_le(b, a) {
        lemma_precedes_antisymmetric(a, b, 0);
        if a.len() != b.len() {
            if a.len() > 0 {
                assert(false);
            }
        }
        assert(a =~= b);
    }
    if text_le(a, b) && text_le(b, c) {
        lemma_precedes_transitive(a, b, c, 0);
    }
}

/// The least text is one of the texts and comes no later than any of
/// them; there is one unless there is no text.
pub proof fn law_least_text(items: Seq<Seq<char>>)
    ensures
        least_text(items) is None <==> items.len() == 0,
        least_text(items) matches Some(least) ==> items.contains(least) && forall|i: int|
            0 <= i < items.len() ==> text_le(least, #[trigger] items[i]),
    decreases items.len(),
{
    if items.len() > 0 {
        let rest = items.drop_last();
        law_least_text(rest);
        let least = least_text(items)->0;
        law_text_order(items.last(), items.last(), items.last());
        match least_text(rest) {
            Some(best) => {
                let k = choose|k: int| 0 <= k < rest.len() && rest[k] == best;
                assert(items[k] == best);
                assert(items[items.len() - 1] == items.last());
                law_text_order(best, items.last(), items.last());
                assert forall|i: int| 0 <= i < items.len() implies text_le(
                    least,
                    #[trigger] items[i],
                ) by {
                    if i < rest.len() {
                        assert(rest[i] == items[i]);
                        law_text_order(least, best, items[i]);
                    }
                }
            },
            None => {
                assert(items[0] == items.last());
            },
        }
    }
}

/// The greatest text is one of the texts and comes no earlier than any of
/// them; there is one unless there is no text.
pub proof fn law_greatest_text(items: Seq<Seq<char>>)
    ensures
        greatest_text(items) is None <==> items.len() == 0,
        greatest_text(items) matches Some(greatest) ==> items.contains(greatest) && forall|i: int|
            0 <= i < items.len() ==> text_le(#[trigger] items[i], greatest),
    decreases items.len(),
{
    if items.len() > 0 {
        let rest = items.drop_last();
        law_greatest_text(rest);
        let greatest = greatest_text(items)->0;
        law_text_order(items.last(), items.last(), items.last());
        match greatest_text(rest) {
            Some(best) => {
                let k = choose|k: int| 0 <= k < rest.len() && rest[k] == best;
                assert(items[k] == best);
                assert(items[items.len() - 1] == items.last());
                law_text_order(best, items.last(), items.last());
                assert forall|i: int| 0 <= i < items.len() implies text_le(
                    #[trigger] items[i],
                    greatest,
                ) by {
                    if i < rest.len() {
                        assert(rest[i] == items[i]);
                        law_text_order(items[i], best, greatest);
                    }
                }
            },
            None => {
                assert(items[0] == items.last());
            },
        }
    }
}

/// Among numbers that all compare with each other, the lowest is one of
/// them and no greater than any, and the highest is one of them and no less
/// than any; there are both unless there is no number.
pub proof fn law_range_of_ranked_numbers(numbers: Seq<ReadingView>)
    requires
        forall|i: int| 0 <= i < numbers.len() ==> (#[trigger] numbers[i]).rank is Some,
    ensures
        lowest(numbers) is None <==> numbers.len() == 0,
        highest(numbers) is None <==> numbers.len() == 0,
        lowest(numbers) matches Some(least) ==> numbers.contains(least) && forall|i: int|
            0 <= i < numbers.len() ==> least.rank->0 <= (#[trigger] numbers[i]).rank->0,
        highest(numbers) matches Some(greatest) ==> numbers.contains(greatest) && forall|i: int|
            0 <= i < numbers.len() ==> greatest.rank->0 >= (#[trigger] numbers[i]).rank->0,
    decreases numbers.len(),
{
    if numbers.len() > 0 {
        let rest = numbers.drop_last();
        assert forall|i: int| 0 <= i < rest.len() implies (#[trigger] rest[i]).rank is Some by {
            assert(rest[i] == numbers[i]);
        }
        law_range_of_ranked_numbers(rest);
        assert(numbers[numbers.len() - 1] == numbers.last());
        if let Some(best) = lowest(rest) {
            let k = choose|k: int| 0 <= k < rest.len() && rest[k] == best;
            assert(numbers[k] == best);
        }
        if let Some(best) = highest(rest) {
            let k = choose|k: int| 0 <= k < rest.len() && rest[k] == best;
            assert(numbers[k] == best);
        }
        let least = lowest(numbers)->0;
        let greatest = highest(numbers)->0;
        assert forall|i: int| 0 <= i < numbers.len() implies least.rank->0 <= (
        #[trigger] numbers[i]).rank->0 && greatest.rank->0 >= numbers[i].rank->0 by {
            if i < rest.len() {
                assert(rest[i] == numbers[i]);
            }
        }
    }
}

/// The labels that are reported as subtypes are those of the cascade that
/// a twentieth of the values or more bear.
pub proof fn law_subtypes_are_the_frequent_labels(labels: Seq<TypeLabel>, label: TypeLabel)
    requires
        labels.len() > 0,
    ensures
        subtypes_of(labels).contains(label) <==> label != TypeLabel::Null && has_share(
            tally(labels, label),
            labels.len(),
        ),
{
    lemma_subtypes_below(labels, 10, label);
}

/// The subtypes among the first `ranks` labels of the cascade are those
/// with a share of one in twenty or more.
proof fn lemma_subtypes_below(labels: Seq<TypeLabel>, ranks: nat, label: TypeLabel)
    requires
        ranks <= 10,
    ensures
        subtypes_below(labels, ranks).contains(label) <==> label.rank() < ranks && has_share(
            tally(labels, label),
            labels.len(),
        ),
    decreases ranks,
{
    if ranks > 0 {
        let rank = (ranks - 1) as nat;
        let before = subtypes_below(labels, rank);
        let here = TypeLabel::at_rank(rank);
        lemma_subtypes_below(labels, rank, label);
        assert(here.rank() == rank);
        assert(TypeLabel::at_rank(label.rank()) == label);
        if has_share(tally(labels, here), labels.len()) {
            let after = before.push(here);
            assert(after[after.len() - 1] == here);
            if before.contains(label) {
                let k = choose|k: int| 0 <= k < before.len() && before[k] == label;
                assert(after[k] == label);
            }
            if after.contains(label) && label != here {
                let k = choose|k: int| 0 <= k < after.len() && after[k] == label;
                assert(before[k] == label);
            }
        }
    }
}

/// The number of labels that are in the cascade.
pub open spec fn cascade_tally(labels: Seq<TypeLabel>) -> nat {
    rank_tally(labels, 0) + rank_tally(labels, 1) + rank_tally(labels, 2) + rank_tally(labels, 3)
        + rank_tally(labels, 4) + rank_tally(labels, 5) + rank_tally(labels, 6) + rank_tally(
        labels,
        7,
    ) + rank_tally(labels, 8) + rank_tally(labels, 9)
}

/// Labels of which none is `Null` are all counted by the cascade.
proof fn lemma_cascade_tally(labels: Seq<TypeLabel>)
    requires
        forall|i: int| 0 <= i < labels.len() ==> labels[i] != TypeLabel::Null,
    ensures
        cascade_tally(labels) == labels.len(),
    decreases labels.len(),
{
    if labels.len() > 0 {
        let rest = labels.drop_last();
        assert forall|i: int| 0 <= i < rest.len() implies rest[i] != TypeLabel::Null by {
            assert(rest[i] == labels[i]);
        }
        lemma_cascade_tally(rest);
        assert(labels.last() == labels[labels.len() - 1]);
        assert(TypeLabel::at_rank(labels.last().rank()) == labels.last());
    }
}

/// No label occurs more often than the type of the column. A label that
/// occurs as often is either `Text` or comes before the type in the
/// cascade, and the type is then not `Text`.
pub proof fn law_primary_is_most_frequent(labels: Seq<TypeLabel>, label: TypeLabel)
    requires
        labels.len() > 0,
        label != TypeLabel::Null,
    ensures
        tally(labels, label) <= tally(labels, primary_of(labels)),
        tally(labels, label) == tally(labels, primary_of(labels)) && label != primary_of(labels)
            ==> primary_of(labels) != TypeLabel::Text && (label == TypeLabel::Text || label.rank()
            < primary_of(labels).rank()),
{
    lemma_leading_rank(labels, 9);
    let leader = leading_rank(labels, 9);
    assert(TypeLabel::at_rank(label.rank()) == label);
    assert(TypeLabel::at_rank(leader).rank() == leader);
    assert(rank_tally(labels, label.rank() as int) == tally(labels, label));
    assert(rank_tally(labels, leader as int) == tally(labels, primary_of(labels)));
}

/// The type of a column with a value to classify is among its subtypes.
pub proof fn law_primary_is_a_subtype(labels: Seq<TypeLabel>)
    requires
        labels.len() > 0,
        forall|i: int| 0 <= i < labels.len() ==> labels[i] != TypeLabel::Null,
    ensures
        subtypes_of(labels).contains(primary_of(labels)),
        primary_of(labels) != TypeLabel::Null,
{
    lemma_leading_rank(labels, 9);
    lemma_cascade_tally(labels);
    let leader = leading_rank(labels, 9);
    assert(rank_tally(labels, 0) <= rank_tally(labels, leader as int));
    assert(rank_tally(labels, 1) <= rank_tally(labels, leader as int));
    assert(rank_tally(labels, 2) <= rank_tally(labels, leader as int));
    assert(rank_tally(labels, 3) <= rank_tally(labels, leader as int));
    assert(rank_tally(labels, 4) <= rank_tally(labels, leader as int));
    assert(rank_tally(labels, 5) <= rank_tally(labels, leader as int));
    assert(rank_tally(labels, 6) <= rank_tally(labels, leader as int));
    assert(rank_tally(labels, 7) <= rank_tally(labels, leader as int));
    assert(rank_tally(labels, 8) <= rank_tally(labels, leader as int));
    assert(rank_tally(labels, 9) <= rank_tally(labels, leader as int));
    assert(TypeLabel::at_rank(leader).rank() == leader);
    law_subtypes_are_the_frequent_labels(labels, primary_of(labels));
}

/// No column of a report holds more values than the report counts rows,
/// and the report counts no more rows than the document has.
pub proof fn law_row_count_bounds_columns(
    cap: Option<usize>,
    delimiter: char,
    headers: Seq<Seq<char>>,
    rows: Seq<Option<Seq<Seq<char>>>>,
    readings: Seq<Seq<Option<ReadingView>>>,
    at: int,
)
    requires
        0 <= at < headers.len(),
    ensures
        ({
            let report = analysis_of(cap, delimiter, headers, columns_of(headers, rows), readings);
            &&& report.columns.len() == report.column_count == headers.len()
            &&& report.columns[at].total_count <= report.row_count <= rows.len()
        }),
{
    lemma_first_column_is_longest(headers, rows, at);
}

/// The examples of a type are distinct texts among those sampled, no more
/// than the limit; and where the limit is not reached, every sampled text
/// is among them.
pub proof fn law_examples(items: Seq<Seq<char>>, limit: nat)
    ensures
        ({
            let kept = first_distinct(items, limit);
            &&& kept.len() <= limit
            &&& forall|i: int, j: int| 0 <= i < j < kept.len() ==> kept[i] != kept[j]
            &&& forall|i: int| 0 <= i < kept.len() ==> items.contains(#[trigger] kept[i])
            &&& kept.len() < limit ==> forall|i: int|
                0 <= i < items.len() ==> kept.contains(#[trigger] items[i])
        }),
    decreases items.len(),
{
    if items.len() > 0 {
        let rest = items.drop_last();
        let before = first_distinct(rest, limit);
        let kept = first_distinct(items, limit);
        law_examples(rest, limit);
        assert(items[items.len() - 1] == items.last());
        assert forall|i: int| 0 <= i < kept.len() implies items.contains(#[trigger] kept[i]) by {
            if i < before.len() {
                let k = choose|k: int| 0 <= k < rest.len() && rest[k] == before[i];
                assert(items[k] == before[i]);
            }
        }
        if kept.len() < limit {
            assert forall|i: int| 0 <= i < items.len() implies kept.contains(
                #[trigger] items[i],
            ) by {
                if i < rest.len() {
                    assert(rest[i] == items[i]);
                    let k = choose|k: int| 0 <= k < before.len() && before[k] == rest[i];
                    assert(kept[k] == items[i]);
                } else if before.contains(items.last()) {
                    let k = choose|k: int| 0 <= k < before.len() && before[k] == items.last();
                    assert(kept[k] == items[i]);
                } else {
                    assert(kept[kept.len() - 1] == items[i]);
                }
            }
        }
    }
}

/// The values shown in a profile are values of the column that are not
/// blank, no more than the limit.
pub proof fn law_shown_values(values: Seq<Seq<char>>, limit: nat)
    ensures
        ({
            let shown = first_filled(values, limit);
            &&& shown.len() <= limit
            &&& forall|i: int|
                0 <= i < shown.len() ==> values.contains(#[trigger] shown[i]) && !is_blank(shown[i])
        }),
    decreases values.len(),
{
    if values.len() > 0 {
        let rest = values.drop_last();
        let before = first_filled(rest, limit);
        let shown = first_filled(values, limit);
        law_shown_values(rest, limit);
        assert(values[values.len() - 1] == values.last());
        assert forall|i: int| 0 <= i < shown.len() implies values.contains(#[trigger] shown[i])
            && !is_blank(shown[i]) by {
            if i < before.len() {
                let k = choose|k: int| 0 <= k < rest.len() && rest[k] == before[i];
                assert(values[k] == before[i]);
            }
        }
    }
}

/// Every sampled text is at least as long as the shortest and at most as
/// long as the longest.
pub proof fn law_lengths(items: Seq<Seq<char>>, at: int)
    requires
        0 <= at < items.len(),
    ensures
        shortest(items) <= byte_len(items[at]) <= longest(items),
    decreases items.len(),
{
    if at < items.len() - 1 {
        let rest = items.drop_last();
        assert(rest[at] == items[at]);
        law_lengths(rest, at);
    }
}

/// Trimming a trimmed text changes nothing.
pub proof fn law_trimming_twice_changes_nothing(s: Seq<char>)
    ensures
        trimmed(trimmed(s)) == trimmed(s),
{
    let once = trimmed(s);
    lemma_trimmed_bounds(s);
    if once.len() > 0 {
        lemma_trim_start_skips(once, 0);
        assert(once.subrange(0, once.len() as int) =~= once);
        lemma_trim_end_stops(once, once.len() as int);
    }
}

/// The separator of a line is one of the four candidates.
pub proof fn law_separator_is_a_candidate(line: Seq<char>)
    ensures
        separator_of(line) == ',' || separator_of(line) == ';' || separator_of(line) == '\t'
            || separator_of(line) == '|',
{
}

} // verus!
