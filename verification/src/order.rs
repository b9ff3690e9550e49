//! Numbers in ascending order.
use vstd::prelude::*;

verus! {

/// `x` put behind the last element of an ascending sequence that it is not
/// below.
pub open spec fn placed(s: Seq<u64>, x: u64) -> Seq<u64>
    decreases s.len(),
{
    if s.len() == 0 || s.last() <= x {
        s.push(x)
    } else {
        placed(s.drop_last(), x).push(s.last())
    }
}

/// The values in ascending order.
pub open spec fn ascending(values: Seq<u64>) -> Seq<u64>
    decreases values.len(),
{
    if values.len() == 0 {
        Seq::empty()
    } else {
        placed(ascending(values.drop_last()), values.last())
    }
}

/// No value is above a later one.
pub open spec fn in_order(s: Seq<u64>) -> bool {
    forall|i: int, j: int| 0 <= i <= j < s.len() ==> s[i] <= s[j]
}

proof fn lemma_placed(s: Seq<u64>, x: u64)
    requires
        in_order(s),
    ensures
        in_order(placed(s, x)),
        placed(s, x).to_multiset() == s.to_multiset().insert(x),
        placed(s, x).len() == s.len() + 1,
        s.len() > 0 ==> placed(s, x).last() >= s.last(),
        placed(s, x).last() >= x,
        s.len() == 0 || s.last() <= x ==> placed(s, x).last() == x,
        s.len() > 0 && s.last() > x ==> placed(s, x).last() == s.last(),
    decreases s.len(),
{
    broadcast use vstd::seq_lib::group_to_multiset_ensures;

    if s.len() == 0 || s.last() <= x {
        assert(placed(s, x) =~= s.push(x));
    } else {
        let rest = s.drop_last();
        lemma_placed(rest, x);
        assert(s =~= rest.push(s.last()));
        let low = placed(rest, x);
        assert(placed(s, x) =~= low.push(s.last()));
        assert(low.last() <= s.last());
        assert forall|i: int, j: int|
            0 <= i <= j < placed(s, x).len() implies placed(s, x)[i] <= placed(s, x)[j] by {
            if j == low.len() {
                if i < low.len() {
                    assert(low[i] <= low[low.len() - 1]);
                }
            }
        }
        assert(s.to_multiset() =~= rest.to_multiset().insert(s.last()));
        assert(placed(s, x).to_multiset() =~= low.to_multiset().insert(s.last()));
        assert(placed(s, x).to_multiset() =~= s.to_multiset().insert(x));
    }
}

/// Sorting gives the same values, in ascending order.
pub proof fn law_ascending(values: Seq<u64>)
    ensures
        in_order(ascending(values)),
        ascending(values).to_multiset() == values.to_multiset(),
        ascending(values).len() == values.len(),
    decreases values.len(),
{
    broadcast use vstd::seq_lib::group_to_multiset_ensures;

    if values.len() == 0 {
        assert(values =~= Seq::<u64>::empty());
    } else {
        law_ascending(values.drop_last());
        lemma_placed(ascending(values.drop_last()), values.last());
        assert(values =~= values.drop_last().push(values.last()));
    }
}

fn place(values: &mut Vec<u64>, x: u64)
    ensures
        final(values)@ == placed(old(values)@, x),
    decreases old(values)@.len(),
{
    if values.len() == 0 || values[values.len() - 1] <= x {
        values.push(x);
    } else {
        let last = values.pop();
        assert(values@ =~= old(values)@.drop_last());
        place(values, x);
        values.push(last.unwrap());
    }
}

/// The values in ascending order.
pub fn sort_ascending(values: &[u64]) -> (result: Vec<u64>)
    ensures
        result@ == ascending(values@),
{
    let mut result: Vec<u64> = Vec::new();
    let mut i: usize = 0;
    assert(values@.take(0) =~= Seq::<u64>::empty());
    while i < values.len()
        invariant
            i <= values@.len(),
            result@ == ascending(values@.take(i as int)),
        decreases values@.len() - i,
    {
        assert(values@.take(i + 1).drop_last() =~= values@.take(i as int));
        place(&mut result, values[i]);
        i = i + 1;
    }
    assert(values@.take(values@.len() as int) =~= values@);
    result
}

/// How many of the values are not above a limit.
pub open spec fn not_above(values: Seq<u64>, limit: u64) -> nat
    decreases values.len(),
{
    if values.len() == 0 {
        0
    } else {
        not_above(values.drop_last(), limit) + if values.last() <= limit {
            1nat
        } else {
            0
        }
    }
}

proof fn lemma_not_above_placed(s: Seq<u64>, x: u64, limit: u64)
    ensures
        not_above(placed(s, x), limit) == not_above(s, limit) + if x <= limit {
            1nat
        } else {
            0
        },
    decreases s.len(),
{
    if s.len() == 0 || s.last() <= x {
        assert(s.push(x).drop_last() =~= s);
    } else {
        lemma_not_above_placed(s.drop_last(), x, limit);
        assert(placed(s.drop_last(), x).push(s.last()).drop_last() =~= placed(s.drop_last(), x));
    }
}

/// Sorting keeps how many values are not above a limit.
pub proof fn law_sorting_keeps_counts(values: Seq<u64>, limit: u64)
    ensures
        not_above(ascending(values), limit) == not_above(values, limit),
    decreases values.len(),
{
    if values.len() > 0 {
        law_sorting_keeps_counts(values.drop_last(), limit);
        lemma_not_above_placed(ascending(values.drop_last()), values.last(), limit);
    }
}

/// In ascending values, the one at a place tells how many are not above it: at
/// least those up to it, and of a smaller limit at most those before it.
pub proof fn law_places_tell_counts(s: Seq<u64>, at: int, limit: u64)
    requires
        in_order(s),
        0 <= at < s.len(),
    ensures
        not_above(s, s[at]) >= at + 1,
        limit < s[at] ==> not_above(s, limit) <= at,
        not_above(s, limit) <= s.len(),
    decreases s.len(),
{
    let head = s.drop_last();
    assert forall|i: int, j: int| 0 <= i <= j < head.len() implies head[i] <= head[j] by {
        assert(s[i] <= s[j]);
    }
    if at < head.len() {
        assert(head[at] == s[at]);
        law_places_tell_counts(head, at, limit);
        assert(s[at] <= s[s.len() - 1]);
    } else {
        lemma_all_not_above(head, s[at]);
        if head.len() > 0 {
            law_places_tell_counts(head, head.len() - 1, limit);
        } else {
            assert(not_above(head, limit) == 0);
        }
    }
}

proof fn lemma_all_not_above(s: Seq<u64>, limit: u64)
    ensures
        (forall|i: int| 0 <= i < s.len() ==> #[trigger] s[i] <= limit) ==> not_above(s, limit)
            == s.len(),
    decreases s.len(),
{
    if s.len() > 0 {
        let head = s.drop_last();
        lemma_all_not_above(head, limit);
        if forall|i: int| 0 <= i < s.len() ==> #[trigger] s[i] <= limit {
            assert forall|i: int| 0 <= i < head.len() implies #[trigger] head[i] <= limit by {
                assert(s[i] <= limit);
            }
            assert(s[s.len() - 1] <= limit);
        }
    }
}

} // verus!
