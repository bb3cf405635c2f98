//! Classes of transfer outcomes, how a gain is classified, and how classes are tallied.

use vstd::prelude::*;

verus! {

/// Classification of transfer effect.
#[derive(Debug, Clone, Copy, PartialEq, Eq, Structural)]
pub enum TransferClass {
    Positive,
    Negative,
    Neutral,
}

/// The lower-case name of a class.
pub open spec fn class_label(c: TransferClass) -> Seq<char> {
    match c {
        TransferClass::Positive => "positive"@,
        TransferClass::Negative => "negative"@,
        TransferClass::Neutral => "neutral"@,
    }
}

impl TransferClass {
    /// The class of a gain, given how it compares with the neutral band
    /// `[-threshold, threshold]`: above it is positive, below it negative,
    /// anywhere else neutral. Above is tested first.
    pub fn from_gain_comparison(above_threshold: bool, below_negative_threshold: bool) -> (c: TransferClass)
        ensures
            above_threshold ==> c == TransferClass::Positive,
            !above_threshold && below_negative_threshold ==> c == TransferClass::Negative,
            !above_threshold && !below_negative_threshold ==> c == TransferClass::Neutral,
    {
        if above_threshold {
            TransferClass::Positive
        } else if below_negative_threshold {
            TransferClass::Negative
        } else {
            TransferClass::Neutral
        }
    }

    /// The class's name: "positive", "negative" or "neutral".
    pub fn to_string(&self) -> (s: String)
        ensures
            s@ == class_label(*self),
    {
        match self {
            TransferClass::Positive => "positive".to_owned(),
            TransferClass::Negative => "negative".to_owned(),
            TransferClass::Neutral => "neutral".to_owned(),
        }
    }
}

/// How many entries of `s` are `c`.
pub open spec fn count_class(s: Seq<TransferClass>, c: TransferClass) -> nat
    decreases s.len(),
{
    if s.len() == 0 {
        0
    } else {
        count_class(s.drop_last(), c) + if s.last() == c {
            1nat
        } else {
            0nat
        }
    }
}

/// The tally of a class counts entries equal to it: none in an empty list, and
/// appending an entry adds one to the tally of its own class and nothing to
/// the tallies of the others.
pub proof fn lemma_count_class_push(s: Seq<TransferClass>, x: TransferClass, c: TransferClass)
    ensures
        count_class(Seq::<TransferClass>::empty(), c) == 0,
        count_class(s.push(x), c) == count_class(s, c) + if x == c {
            1int
        } else {
            0int
        },
{
    assert(s.push(x).drop_last() =~= s);
}

/// The tally of a class never exceeds the length of the list, and a class
/// that does not occur has tally zero.
pub proof fn lemma_count_class_bounds(s: Seq<TransferClass>, c: TransferClass)
    ensures
        count_class(s, c) <= s.len(),
        (forall|k: int| 0 <= k < s.len() ==> s[k] != c) ==> count_class(s, c) == 0,
        (forall|k: int| 0 <= k < s.len() ==> s[k] == c) ==> count_class(s, c) == s.len(),
    decreases s.len(),
{
    if s.len() > 0 {
        lemma_count_class_bounds(s.drop_last(), c);
    }
}

/// Every entry falls in exactly one class, so the three counts add up to the length.
pub proof fn lemma_counts_partition(s: Seq<TransferClass>)
    ensures
        count_class(s, TransferClass::Positive) + count_class(s, TransferClass::Negative)
            + count_class(s, TransferClass::Neutral) == s.len(),
    decreases s.len(),
{
    if s.len() > 0 {
        lemma_counts_partition(s.drop_last());
    }
}

/// The tally of a list of classified experiments.
pub struct ClassCounts {
    pub total_experiments: usize,
    pub positive_count: usize,
    pub negative_count: usize,
    pub neutral_count: usize,
}

impl ClassCounts {
    /// Count how many of the experiments fall in each class.
    pub fn from_classes(classes: &[TransferClass]) -> (t: ClassCounts)
        ensures
            t.total_experiments == classes@.len(),
            t.positive_count == count_class(classes@, TransferClass::Positive),
            t.negative_count == count_class(classes@, TransferClass::Negative),
            t.neutral_count == count_class(classes@, TransferClass::Neutral),
            t.positive_count + t.negative_count + t.neutral_count == t.total_experiments,
    {
        let mut positive_count: usize = 0;
        let mut negative_count: usize = 0;
        let mut neutral_count: usize = 0;
        let mut i: usize = 0;
        while i < classes.len()
            invariant
                i <= classes@.len(),
                positive_count == count_class(classes@.take(i as int), TransferClass::Positive),
                negative_count == count_class(classes@.take(i as int), TransferClass::Negative),
                neutral_count == count_class(classes@.take(i as int), TransferClass::Neutral),
                positive_count + negative_count + neutral_count == i,
            decreases classes@.len() - i,
        {
            assert(classes@.take(i + 1).drop_last() =~= classes@.take(i as int));
            match classes[i] {
                TransferClass::Positive => positive_count = positive_count + 1,
                TransferClass::Negative => negative_count = negative_count + 1,
                TransferClass::Neutral => neutral_count = neutral_count + 1,
            }
            i = i + 1;
        }
        assert(classes@.take(i as int) =~= classes@);
        ClassCounts { total_experiments: classes.len(), positive_count, negative_count, neutral_count }
    }
}

/// The rank (1 = best, 3 = worst) of the transferred strategy among the
/// transferred, scratch-trained and random strategies when they are ordered
/// from the highest fitness down and ties keep that order: one more than the
/// number of the other two whose fitness is strictly higher.
pub fn transferred_rank(scratch_higher: bool, random_higher: bool) -> (rank: usize)
    ensures
        rank == 1 + (if scratch_higher { 1int } else { 0int }) + (if random_higher { 1int } else { 0int }),
        1 <= rank <= 3,
{
    let mut rank: usize = 1;
    if scratch_higher {
        rank = rank + 1;
    }
    if random_higher {
        rank = rank + 1;
    }
    rank
}

} // verus!
