//! From the labels of the values of a column to the type of the column: the
//! primary label, the confidence in it, and the labels with a share worth
//! reporting.

use crate::labels::TypeLabel;
use crate::report::{Ratio, Share};
use vstd::prelude::*;

verus! {

/// How often `label` occurs in `labels`.
pub open spec fn tally(labels: Seq<TypeLabel>, label: TypeLabel) -> nat
    decreases labels.len(),
{
    if labels.len() == 0 {
        0
    } else {
        tally(labels.drop_last(), label) + if labels.last() == label {
            1nat
        } else {
            0nat
        }
    }
}

/// How often the label of rank `rank` occurs in `labels`.
pub open spec fn rank_tally(labels: Seq<TypeLabel>, rank: int) -> nat {
    tally(labels, TypeLabel::at_rank(rank as nat))
}

/// Whether the label of rank `rank` takes the lead from the label of rank
/// `holder`, which comes before it in the cascade: it does when it occurs
/// at least as often, and `Text`, on which the cascade falls back, only
/// when it occurs more often.
pub open spec fn takes_over(labels: Seq<TypeLabel>, rank: nat, holder: nat) -> bool {
    if rank == 9 {
        rank_tally(labels, rank as int) > rank_tally(labels, holder as int)
    } else {
        rank_tally(labels, rank as int) >= rank_tally(labels, holder as int)
    }
}

/// Among the labels of rank 0 to `upto` the rank of the one that leads.
pub open spec fn leading_rank(labels: Seq<TypeLabel>, upto: nat) -> nat
    decreases upto,
{
    if upto == 0 {
        0
    } else {
        let before = leading_rank(labels, (upto - 1) as nat);
        if takes_over(labels, upto, before) {
            upto
        } else {
            before
        }
    }
}

/// The type of a column whose values bear `labels`: the label that occurs
/// most often, and `Null` where there is no value. Where several labels
/// occur equally often, the one that comes last in the cascade is taken,
/// because a check that comes early hides the later ones (`1` is a truth
/// value before it is an integer, and an integer before it is a float);
/// `Text`, which is the label of what matched nothing, gives way to every
/// other label.
pub open spec fn primary_of(labels: Seq<TypeLabel>) -> TypeLabel {
    if labels.len() == 0 {
        TypeLabel::Null
    } else {
        TypeLabel::at_rank(leading_rank(labels, 9))
    }
}

/// Whether `count` out of `total` is a share of one in twenty or more.
pub open spec fn has_share(count: nat, total: nat) -> bool {
    20 * count >= total
}

/// The labels of rank below `ranks` with a share worth reporting, in the
/// order of the cascade.
pub open spec fn subtypes_below(labels: Seq<TypeLabel>, ranks: nat) -> Seq<TypeLabel>
    decreases ranks,
{
    if ranks == 0 {
        Seq::empty()
    } else {
        let rank = (ranks - 1) as nat;
        let before = subtypes_below(labels, rank);
        if has_share(tally(labels, TypeLabel::at_rank(rank)), labels.len()) {
            before.push(TypeLabel::at_rank(rank))
        } else {
            before
        }
    }
}

/// The labels with a share of one in twenty or more; none where there is no
/// value.
pub open spec fn subtypes_of(labels: Seq<TypeLabel>) -> Seq<TypeLabel> {
    if labels.len() == 0 {
        Seq::empty()
    } else {
        subtypes_below(labels, 10)
    }
}

/// The share of the values that bear the primary label; the whole where
/// there is no value.
pub open spec fn confidence_of(labels: Seq<TypeLabel>) -> Share {
    if labels.len() == 0 {
        Share { part: 1, whole: 1 }
    } else {
        Share { part: tally(labels, primary_of(labels)), whole: labels.len() }
    }
}

/// No label occurs more often than there are labels.
pub proof fn lemma_tally_bounded(labels: Seq<TypeLabel>, label: TypeLabel)
    ensures
        tally(labels, label) <= labels.len(),
    decreases labels.len(),
{
    if labels.len() > 0 {
        lemma_tally_bounded(labels.drop_last(), label);
    }
}

/// A label occurs as often as there are values exactly when every value
/// bears it.
pub proof fn lemma_tally_full(labels: Seq<TypeLabel>, label: TypeLabel)
    ensures
        tally(labels, label) == labels.len() <==> forall|i: int|
            0 <= i < labels.len() ==> labels[i] == label,
    decreases labels.len(),
{
    if labels.len() > 0 {
        let rest = labels.drop_last();
        lemma_tally_full(rest, label);
        lemma_tally_bounded(rest, label);
        if tally(labels, label) == labels.len() {
            assert forall|i: int| 0 <= i < labels.len() implies labels[i] == label by {
                if i < rest.len() {
                    assert(rest[i] == labels[i]);
                }
            }
        } else if labels.last() == label {
            let i = choose|i: int| 0 <= i < rest.len() && rest[i] != label;
            assert(labels[i] != label);
        }
    }
}

/// The leading rank is within range and its label occurs at least as
/// often as any other. A label that comes later in the cascade occurs less
/// often, unless it is `Text`; and where `Text` leads, every other label
/// occurs less often.
pub proof fn lemma_leading_rank(labels: Seq<TypeLabel>, upto: nat)
    requires
        upto <= 9,
    ensures
        leading_rank(labels, upto) <= upto,
        forall|rank: int|
            0 <= rank <= upto ==> #[trigger] rank_tally(labels, rank) <= rank_tally(
                labels,
                leading_rank(labels, upto) as int,
            ),
        forall|rank: int|
            leading_rank(labels, upto) < rank <= upto && rank != 9 ==> #[trigger] rank_tally(
                labels,
                rank,
            ) < rank_tally(labels, leading_rank(labels, upto) as int),
        leading_rank(labels, upto) == 9 ==> forall|rank: int|
            0 <= rank < 9 ==> #[trigger] rank_tally(labels, rank) < rank_tally(labels, 9),
    decreases upto,
{
    if upto > 0 {
        lemma_leading_rank(labels, (upto - 1) as nat);
    }
}

/// Adds one to the count of `label` and leaves the others as they are.
proof fn lemma_tally_push(labels: Seq<TypeLabel>, next: TypeLabel, label: TypeLabel)
    ensures
        tally(labels.push(next), label) == tally(labels, label) + if next == label {
            1nat
        } else {
            0nat
        },
{
    assert(labels.push(next).drop_last() =~= labels);
}

/// The type that the labels of the values of a column give it: the primary
/// label, the confidence in it, and the labels with a share of one in
/// twenty or more.
pub fn summarize(labels: &Vec<TypeLabel>) -> (summary: (TypeLabel, Ratio, Vec<TypeLabel>))
    ensures
        summary.0 == primary_of(labels@),
        summary.1@ == confidence_of(labels@),
        summary.2@ == subtypes_of(labels@),
{
    let total = labels.len();
    if total == 0 {
        return (TypeLabel::Null, Ratio { numerator: 1, denominator: 1 }, Vec::new());
    }
    let mut counts: Vec<usize> = Vec::new();
    let mut rank: usize = 0;
    while rank < 10
        invariant
            rank <= 10,
            counts@.len() == rank,
            forall|k: int| 0 <= k < rank ==> counts@[k] == 0,
        decreases 10 - rank,
    {
        counts.push(0);
        rank += 1;
    }
    let mut i: usize = 0;
    while i < total
        invariant
            i <= total,
            total == labels.len(),
            counts@.len() == 10,
            forall|k: int|
                0 <= k < 10 ==> counts@[k] == #[trigger] rank_tally(labels@.take(i as int), k),
        decreases total - i,
    {
        let place = labels[i].index();
        proof {
            let seen = labels@.take(i as int);
            assert(labels@.take(i + 1) =~= seen.push(labels@[i as int]));
            assert forall|k: int| 0 <= k < 10 implies #[trigger] rank_tally(
                labels@.take(i + 1),
                k,
            ) == rank_tally(seen, k) + if k == place {
                1nat
            } else {
                0nat
            } by {
                lemma_tally_push(seen, labels@[i as int], TypeLabel::at_rank(k as nat));
            }
            if place < 10 {
                lemma_tally_bounded(labels@.take(i + 1), TypeLabel::at_rank(place as nat));
                assert(counts@[place as int] + 1 == rank_tally(labels@.take(i + 1), place as int));
            }
        }
        if place < 10 {
            let count = counts[place];
            counts.set(place, count + 1);
        }
        i += 1;
    }
    assert(labels@.take(total as int) =~= labels@);
    let mut leader: usize = 0;
    let mut rank: usize = 1;
    while rank < 10
        invariant
            1 <= rank <= 10,
            leader == leading_rank(labels@, (rank - 1) as nat),
            leader < rank,
            counts@.len() == 10,
            forall|k: int| 0 <= k < 10 ==> counts@[k] == #[trigger] rank_tally(labels@, k),
        decreases 10 - rank,
    {
        assert(counts@[rank as int] == rank_tally(labels@, rank as int));
        assert(counts@[leader as int] == rank_tally(labels@, leader as int));
        if (rank == 9 && counts[rank] > counts[leader]) || (rank != 9 && counts[rank]
            >= counts[leader]) {
            leader = rank;
        }
        rank += 1;
    }
    let mut subtypes: Vec<TypeLabel> = Vec::new();
    let mut rank: usize = 0;
    while rank < 10
        invariant
            rank <= 10,
            total == labels.len(),
            subtypes@ == subtypes_below(labels@, rank as nat),
            counts@.len() == 10,
            forall|k: int| 0 <= k < 10 ==> counts@[k] == #[trigger] rank_tally(labels@, k),
        decreases 10 - rank,
    {
        assert(counts@[rank as int] == rank_tally(labels@, rank as int));
        if counts[rank] as u128 * 20 >= total as u128 {
            subtypes.push(TypeLabel::from_index(rank));
        }
        rank += 1;
    }
    let primary = TypeLabel::from_index(leader);
    assert(counts@[leader as int] == rank_tally(labels@, leader as int));
    (primary, Ratio { numerator: counts[leader], denominator: total }, subtypes)
}

} // verus!
