use vstd::prelude::*;

verus! {

/// How many values at the front of `s` lie below `t`, counted until the
/// first that does not.
pub open spec fn count_below(s: Seq<usize>, t: usize) -> nat
    decreases s.len(),
{
    if s.len() > 0 && s[0] < t {
        1 + count_below(s.drop_first(), t)
    } else {
        0
    }
}

/// For each threshold in turn, how many of the values still left at the
/// front of `moves` lie below it, those values being then used up; the last
/// entry counts what is left after the last threshold.
pub open spec fn bucket_counts(moves: Seq<usize>, thresholds: Seq<usize>) -> Seq<int>
    decreases thresholds.len(),
{
    if thresholds.len() == 0 {
        seq![moves.len() as int]
    } else {
        let k = count_below(moves, thresholds[0]);
        seq![k as int] + bucket_counts(moves.skip(k as int), thresholds.drop_first())
    }
}

/// The sum of `s`.
pub open spec fn sum_of(s: Seq<int>) -> int
    decreases s.len(),
{
    if s.len() == 0 {
        0
    } else {
        s[0] + sum_of(s.drop_first())
    }
}

/// The counts as integers.
pub open spec fn as_ints(v: Seq<usize>) -> Seq<int> {
    v.map_values(|x: usize| x as int)
}

proof fn lemma_count_below_len(s: Seq<usize>, t: usize)
    ensures
        count_below(s, t) <= s.len(),
    decreases s.len(),
{
    if s.len() > 0 && s[0] < t {
        lemma_count_below_len(s.drop_first(), t);
    }
}

/// There is one bucket more than there are thresholds, and the buckets
/// together hold every value exactly once: their counts add up to the number
/// of values.
pub proof fn lemma_bucket_counts_sum(moves: Seq<usize>, thresholds: Seq<usize>)
    ensures
        bucket_counts(moves, thresholds).len() == thresholds.len() + 1,
        sum_of(bucket_counts(moves, thresholds)) == moves.len(),
    decreases thresholds.len(),
{
    let b = bucket_counts(moves, thresholds);
    if thresholds.len() == 0 {
        assert(b.drop_first() =~= Seq::<int>::empty());
        assert(sum_of(b.drop_first()) == 0);
    } else {
        let k = count_below(moves, thresholds[0]);
        lemma_count_below_len(moves, thresholds[0]);
        let rest = bucket_counts(moves.skip(k as int), thresholds.drop_first());
        lemma_bucket_counts_sum(moves.skip(k as int), thresholds.drop_first());
        assert(b.drop_first() =~= rest);
        assert(sum_of(b) == k + sum_of(rest));
    }
}

/// The index of the first threshold that `value` does not exceed, when the
/// thresholds are ascending: how many thresholds at the front lie below it.
pub fn get_threshold_index(thresholds: &[usize], value: usize) -> (r: usize)
    ensures
        r == count_below(thresholds@, value),
{
    let mut k: usize = 0;
    assert(thresholds@.skip(0) =~= thresholds@);
    while k < thresholds.len() && thresholds[k] < value
        invariant
            k <= thresholds@.len(),
            count_below(thresholds@, value) == k + count_below(thresholds@.skip(k as int), value),
        decreases thresholds@.len() - k,
    {
        assert(thresholds@.skip(k as int).drop_first() =~= thresholds@.skip(k + 1));
        k += 1;
    }
    k
}

/// Splits the values `moves` into buckets by `thresholds`, both taken as
/// ascending: the count below the first threshold, then the count of those
/// left that lie below the next one, and so on, and last the count of what
/// is left.
pub fn get_threshold_values(moves: &[usize], thresholds: &[usize]) -> (r: Vec<usize>)
    ensures
        as_ints(r@) == bucket_counts(moves@, thresholds@),
        r@.len() == thresholds@.len() + 1,
        sum_of(as_ints(r@)) == moves@.len(),
{
    let mut counts: Vec<usize> = Vec::new();
    let mut pos: usize = 0;
    let mut j: usize = 0;
    assert(moves@.skip(0) =~= moves@);
    assert(thresholds@.skip(0) =~= thresholds@);
    assert(as_ints(counts@) + bucket_counts(moves@, thresholds@) =~= bucket_counts(
        moves@,
        thresholds@,
    ));
    while j < thresholds.len()
        invariant
            pos <= moves@.len(),
            j <= thresholds@.len(),
            counts@.len() == j,
            bucket_counts(moves@, thresholds@) == as_ints(counts@) + bucket_counts(
                moves@.skip(pos as int),
                thresholds@.skip(j as int),
            ),
        decreases thresholds@.len() - j,
    {
        let threshold = thresholds[j];
        let mut k: usize = pos;
        while k < moves.len() && moves[k] < threshold
            invariant
                pos <= k <= moves@.len(),
                count_below(moves@.skip(pos as int), threshold) == (k - pos) + count_below(
                    moves@.skip(k as int),
                    threshold,
                ),
            decreases moves@.len() - k,
        {
            assert(moves@.skip(k as int).drop_first() =~= moves@.skip(k + 1));
            k += 1;
        }
        let ghost old_counts = counts@;
        counts.push(k - pos);
        proof {
            let tail = thresholds@.skip(j as int);
            assert(tail[0] == threshold);
            assert(tail.drop_first() =~= thresholds@.skip(j + 1));
            assert(moves@.skip(pos as int).skip(k - pos) =~= moves@.skip(k as int));
            assert(as_ints(counts@) =~= as_ints(old_counts).push((k - pos) as int));
            let rest = bucket_counts(moves@.skip(k as int), thresholds@.skip(j + 1));
            assert(as_ints(old_counts) + (seq![(k - pos) as int] + rest) =~= as_ints(counts@)
                + rest);
        }
        pos = k;
        j += 1;
    }
    let ghost old_counts = counts@;
    counts.push(moves.len() - pos);
    proof {
        assert(as_ints(counts@) =~= as_ints(old_counts).push((moves@.len() - pos) as int));
        assert(thresholds@.skip(j as int) =~= Seq::<usize>::empty());
        assert(as_ints(counts@) =~= bucket_counts(moves@, thresholds@));
        lemma_bucket_counts_sum(moves@, thresholds@);
    }
    counts
}

} // verus!
