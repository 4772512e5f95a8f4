//! Counting over sequences of mark bits: how many slots of an arena are
//! marked, and how many live slots lie strictly below a given position.
//! The compaction tables are specified with these functions.

use vstd::prelude::*;

verus! {

/// Number of `true` entries of a bit sequence.
pub open spec fn count_true(s: Seq<bool>) -> int
    decreases s.len(),
{
    if s.len() == 0 {
        0
    } else {
        count_true(s.drop_last()) + if s.last() {
            1int
        } else {
            0int
        }
    }
}

/// Number of `true` entries strictly below position `i`.
pub open spec fn live_below(s: Seq<bool>, i: int) -> int {
    count_true(s.take(i))
}

pub proof fn lemma_count_true_bounds(s: Seq<bool>)
    ensures
        0 <= count_true(s) <= s.len(),
    decreases s.len(),
{
    if s.len() > 0 {
        lemma_count_true_bounds(s.drop_last());
    }
}

/// Appending one bit adds one to the count exactly when the bit is set.
pub proof fn lemma_count_true_push(s: Seq<bool>, b: bool)
    ensures
        count_true(s.push(b)) == count_true(s) + if b {
            1int
        } else {
            0int
        },
{
    assert(s.push(b).drop_last() =~= s);
    assert(s.push(b).last() == b);
}

/// Extending the prefix by one position grows `live_below` by the bit there.
pub proof fn lemma_live_below_step(s: Seq<bool>, i: int)
    requires
        0 <= i < s.len(),
    ensures
        live_below(s, i + 1) == live_below(s, i) + if s[i] {
            1int
        } else {
            0int
        },
{
    assert(s.take(i + 1) =~= s.take(i).push(s[i]));
    lemma_count_true_push(s.take(i), s[i]);
}

/// The whole sequence is its own prefix.
pub proof fn lemma_live_below_all(s: Seq<bool>)
    ensures
        live_below(s, s.len() as int) == count_true(s),
{
    assert(s.take(s.len() as int) =~= s);
}

pub proof fn lemma_live_below_bounds(s: Seq<bool>, i: int)
    requires
        0 <= i <= s.len(),
    ensures
        0 <= live_below(s, i) <= i,
    decreases i,
{
    if i == 0 {
        assert(s.take(0) =~= Seq::<bool>::empty());
    } else {
        lemma_live_below_bounds(s, i - 1);
        lemma_live_below_step(s, i - 1);
    }
}

/// Setting one clear bit increases the count by one.
pub proof fn lemma_count_true_set(s: Seq<bool>, i: int)
    requires
        0 <= i < s.len(),
        !s[i],
    ensures
        count_true(s.update(i, true)) == count_true(s) + 1,
    decreases s.len(),
{
    let t = s.update(i, true);
    if i == s.len() - 1 {
        assert(t.drop_last() =~= s.drop_last());
    } else {
        assert(t.drop_last() =~= s.drop_last().update(i, true));
        lemma_count_true_set(s.drop_last(), i);
    }
}

/// A pointwise-smaller bit sequence has no larger a count.
pub proof fn lemma_count_true_pointwise_le(s: Seq<bool>, t: Seq<bool>)
    requires
        s.len() == t.len(),
        forall|i: int| 0 <= i < s.len() && s[i] ==> t[i],
    ensures
        count_true(s) <= count_true(t),
    decreases s.len(),
{
    if s.len() > 0 {
        lemma_count_true_pointwise_le(s.drop_last(), t.drop_last());
    }
}

/// A pointwise-smaller bit sequence with one strictly new set bit has a
/// strictly smaller count.
pub proof fn lemma_count_true_pointwise_lt(s: Seq<bool>, t: Seq<bool>, w: int)
    requires
        s.len() == t.len(),
        forall|i: int| 0 <= i < s.len() && s[i] ==> t[i],
        0 <= w < s.len(),
        !s[w],
        t[w],
    ensures
        count_true(s) < count_true(t),
    decreases s.len(),
{
    if w == s.len() - 1 {
        lemma_count_true_pointwise_le(s.drop_last(), t.drop_last());
    } else {
        lemma_count_true_pointwise_lt(s.drop_last(), t.drop_last(), w);
    }
}

/// Sequences that agree pointwise count alike.
pub proof fn lemma_count_true_congruent(s: Seq<bool>, t: Seq<bool>)
    requires
        s.len() == t.len(),
        forall|i: int| 0 <= i < s.len() ==> s[i] == t[i],
    ensures
        count_true(s) == count_true(t),
{
    lemma_count_true_pointwise_le(s, t);
    lemma_count_true_pointwise_le(t, s);
}

/// Positions with a set bit map injectively and monotonically to their
/// live rank: two distinct marked positions get distinct ranks.
pub proof fn lemma_live_below_strict_mono(s: Seq<bool>, i: int, j: int)
    requires
        0 <= i < j <= s.len(),
        s[i],
    ensures
        live_below(s, i) < live_below(s, j),
    decreases j - i,
{
    lemma_live_below_step(s, i);
    if i + 1 < j {
        lemma_live_below_mono(s, i + 1, j);
    }
}

/// `live_below` is monotone in the position.
pub proof fn lemma_live_below_mono(s: Seq<bool>, i: int, j: int)
    requires
        0 <= i <= j <= s.len(),
    ensures
        live_below(s, i) <= live_below(s, j),
    decreases j - i,
{
    if i < j {
        lemma_live_below_step(s, j - 1);
        lemma_live_below_mono(s, i, j - 1);
    }
}

/// Every rank below the total count is the rank of exactly one marked
/// position: the compacted arena is exactly the image of the marked slots.
pub proof fn lemma_rank_surjective(s: Seq<bool>, j: int)
    requires
        0 <= j < count_true(s),
    ensures
        exists|i: int|
            0 <= i < s.len() && s[i] && #[trigger] live_below(s, i) == j,
    decreases s.len(),
{
    lemma_live_below_all(s);
    if s.len() > 0 {
        let n = s.len() as int;
        lemma_live_below_step(s, n - 1);
        if s.last() && j == live_below(s, n - 1) {
            assert(s[n - 1] && live_below(s, n - 1) == j);
        } else {
            lemma_count_true_push(s.drop_last(), s.last());
            assert(s.drop_last().push(s.last()) =~= s);
            lemma_rank_surjective(s.drop_last(), j);
            let i = choose|i: int|
                0 <= i < s.drop_last().len() && s.drop_last()[i] && #[trigger] live_below(
                    s.drop_last(),
                    i,
                ) == j;
            assert(s.drop_last().take(i) =~= s.take(i));
            assert(s[i] && live_below(s, i) == j);
        }
    }
}

} // verus!
