//! The order of search results: the better score first, and among equal
//! scores the smaller key. Scores are single-precision numbers given by their
//! bit patterns.
use crate::text;
use vstd::prelude::*;
use vstd::string::*;

verus! {

/// The place of a score in the total order of single-precision numbers, in
/// which negative numbers come before positive ones, and not-a-numbers last on
/// either side.
pub open spec fn rank32(bits: u32) -> int {
    if bits < 0x8000_0000 {
        bits as int
    } else {
        0x7FFF_FFFF - bits
    }
}

/// One text comes before another in the order of their code points.
pub open spec fn text_less(a: Seq<char>, b: Seq<char>) -> bool
    decreases a.len(),
{
    if b.len() == 0 {
        false
    } else if a.len() == 0 {
        true
    } else if a[0] != b[0] {
        (a[0] as int) < (b[0] as int)
    } else {
        text_less(a.drop_first(), b.drop_first())
    }
}

proof fn lemma_irreflexive(a: Seq<char>)
    ensures
        !text_less(a, a),
    decreases a.len(),
{
    if a.len() > 0 {
        lemma_irreflexive(a.drop_first());
    }
}

/// The order of texts tells any two apart.
pub proof fn law_text_order_total(a: Seq<char>, b: Seq<char>)
    ensures
        text_less(a, b) || text_less(b, a) || a == b,
        !(text_less(a, b) && text_less(b, a)),
        !text_less(a, a),
    decreases a.len() + b.len(),
{
    if a.len() > 0 && b.len() > 0 && a[0] == b[0] {
        law_text_order_total(a.drop_first(), b.drop_first());
        lemma_irreflexive(a);
        if a.drop_first() == b.drop_first() {
            assert(a =~= seq![a[0]] + a.drop_first());
            assert(b =~= seq![b[0]] + b.drop_first());
        }
    } else if a.len() == 0 && b.len() == 0 {
        assert(a =~= b);
    } else {
        lemma_irreflexive(a);
    }
}

/// The order of texts is transitive.
pub proof fn law_text_order_transitive(a: Seq<char>, b: Seq<char>, c: Seq<char>)
    requires
        text_less(a, b),
        text_less(b, c),
    ensures
        text_less(a, c),
    decreases a.len(),
{
    if a.len() > 0 && b.len() > 0 && c.len() > 0 {
        if a[0] == b[0] && b[0] == c[0] {
            law_text_order_transitive(a.drop_first(), b.drop_first(), c.drop_first());
        }
    }
}

/// One text comes before another.
pub fn comes_before(a: &str, b: &str) -> (result: bool)
    ensures
        result == text_less(a@, b@),
{
    let left = text::chars_of(a);
    let right = text::chars_of(b);
    let mut i: usize = 0;
    assert(left@.skip(0) =~= left@);
    assert(right@.skip(0) =~= right@);
    while i < left.len() && i < right.len()
        invariant
            i <= left@.len(),
            i <= right@.len(),
            left@ == a@,
            right@ == b@,
            text_less(a@, b@) == text_less(left@.skip(i as int), right@.skip(i as int)),
        decreases left@.len() - i,
    {
        let x: char = left[i];
        let y: char = right[i];
        assert(left@.skip(i as int)[0] == left@[i as int]);
        assert(right@.skip(i as int)[0] == right@[i as int]);
        if x != y {
            return x < y;
        }
        assert(left@[i as int] == right@[i as int]);
        assert(left@.skip(i as int).drop_first() =~= left@.skip(i + 1));
        assert(right@.skip(i as int).drop_first() =~= right@.skip(i + 1));
        i = i + 1;
    }
    i < right.len()
}

/// A subject with its score.
#[derive(Debug, Clone)]
pub struct ScoredSubject {
    pub subject_key: String,
    pub score: u32,
}

/// What a scored subject says.
pub struct Scored {
    pub key: Seq<char>,
    pub score: u32,
}

impl View for ScoredSubject {
    type V = Scored;

    open spec fn view(&self) -> Scored {
        Scored { key: self.subject_key@, score: self.score }
    }
}

impl ScoredSubject {
    pub fn copy(&self) -> (result: Self)
        ensures
            result@ == self@,
    {
        ScoredSubject { subject_key: self.subject_key.clone(), score: self.score }
    }
}

/// The subjects and scores.
pub open spec fn scored_views(list: Seq<ScoredSubject>) -> Seq<Scored> {
    list.map_values(|s: ScoredSubject| s@)
}

/// One result comes before another.
pub open spec fn better(a: Scored, b: Scored) -> bool {
    rank32(a.score) > rank32(b.score) || (rank32(a.score) == rank32(b.score) && text_less(
        a.key,
        b.key,
    ))
}

/// The list is in order: no result comes before one that stands ahead of it.
pub open spec fn in_rank_order(list: Seq<Scored>) -> bool {
    forall|i: int, j: int|
        0 <= i < j < list.len() ==> !better(#[trigger] list[j], #[trigger] list[i])
}

/// How many results at the head of the list are not worse than this one.
pub open spec fn place_of(list: Seq<Scored>, x: Scored) -> nat
    decreases list.len(),
{
    if list.len() == 0 || better(x, list[0]) {
        0
    } else {
        1 + place_of(list.drop_first(), x)
    }
}

/// The list with one more result in its place.
pub open spec fn with_scored(list: Seq<Scored>, x: Scored) -> Seq<Scored> {
    list.insert(place_of(list, x) as int, x)
}

/// The results in order.
pub open spec fn ranked(list: Seq<Scored>) -> Seq<Scored>
    decreases list.len(),
{
    if list.len() == 0 {
        list
    } else {
        with_scored(ranked(list.drop_last()), list.last())
    }
}

/// The first `want` results of a list.
pub open spec fn first_of(list: Seq<Scored>, want: nat) -> Seq<Scored> {
    if list.len() <= want {
        list
    } else {
        list.take(want as int)
    }
}

proof fn lemma_place(list: Seq<Scored>, x: Scored)
    ensures
        place_of(list, x) <= list.len(),
        forall|i: int| 0 <= i < place_of(list, x) ==> !better(x, #[trigger] list[i]),
        place_of(list, x) < list.len() ==> better(x, list[place_of(list, x) as int]),
    decreases list.len(),
{
    if list.len() > 0 && !better(x, list[0]) {
        let rest = list.drop_first();
        lemma_place(rest, x);
        assert forall|i: int| 0 <= i < place_of(list, x) implies !better(
            x,
            #[trigger] list[i],
        ) by {
            if i > 0 {
                assert(rest[i - 1] == list[i]);
            }
        }
        if place_of(list, x) < list.len() {
            assert(rest[place_of(rest, x) as int] == list[place_of(list, x) as int]);
        }
    }
}

proof fn lemma_place_is(list: Seq<Scored>, x: Scored, at: int)
    requires
        0 <= at <= list.len(),
        forall|i: int| 0 <= i < at ==> !better(x, #[trigger] list[i]),
        at < list.len() ==> better(x, list[at]),
    ensures
        place_of(list, x) == at,
    decreases at,
{
    if at > 0 {
        assert(!better(x, list[0]));
        let rest = list.drop_first();
        assert forall|i: int| 0 <= i < at - 1 implies !better(x, #[trigger] rest[i]) by {
            assert(rest[i] == list[i + 1]);
        }
        if at < list.len() {
            assert(rest[at - 1] == list[at]);
        }
        lemma_place_is(rest, x, at - 1);
    }
}

/// The order of results tells different results apart.
pub proof fn law_rank_order_total(a: Scored, b: Scored)
    ensures
        better(a, b) || better(b, a) || a == b,
        !(better(a, b) && better(b, a)),
{
    law_text_order_total(a.key, b.key);
}

/// The order of results is transitive.
pub proof fn law_rank_order_transitive(a: Scored, b: Scored, c: Scored)
    requires
        better(a, b),
        better(b, c),
    ensures
        better(a, c),
{
    if rank32(a.score) == rank32(b.score) && rank32(b.score) == rank32(c.score) {
        law_text_order_transitive(a.key, b.key, c.key);
    }
}

proof fn lemma_not_better_chain(a: Scored, b: Scored, c: Scored)
    requires
        !better(b, a),
        !better(c, b),
    ensures
        !better(c, a),
{
    law_rank_order_total(a, b);
    law_rank_order_total(b, c);
    law_rank_order_total(a, c);
    if better(c, a) {
        if better(a, b) {
            law_rank_order_transitive(c, a, b);
        }
    }
}

proof fn lemma_with_scored_in_order(list: Seq<Scored>, x: Scored)
    requires
        in_rank_order(list),
    ensures
        in_rank_order(with_scored(list, x)),
        with_scored(list, x).len() == list.len() + 1,
        with_scored(list, x).to_multiset() == list.to_multiset().insert(x),
{
    lemma_place(list, x);
    let at = place_of(list, x) as int;
    let after = with_scored(list, x);
    assert forall|i: int, j: int| 0 <= i < j < after.len() implies !better(
        #[trigger] after[j],
        #[trigger] after[i],
    ) by {
        let before_i = if i < at {
            i
        } else {
            i - 1
        };
        let before_j = if j < at {
            j
        } else {
            j - 1
        };
        if i == at {
            assert(after[j] == list[j - 1]);
            law_rank_order_total(x, list[at]);
            if j - 1 > at {
                assert(!better(list[j - 1], list[at]));
                lemma_not_better_chain(x, list[at], list[j - 1]);
            }
        } else if j == at {
            assert(after[i] == list[i]);
        } else {
            assert(after[i] == list[before_i] && after[j] == list[before_j]);
        }
    }
    list.to_multiset_ensures();
    after.to_multiset_ensures();
    vstd::seq_lib::to_multiset_insert(list, at, x);
}

/// Ranking keeps every result, as often as it occurs, and puts them in order.
pub proof fn law_ranked_is_a_sorted_copy(list: Seq<Scored>)
    ensures
        in_rank_order(ranked(list)),
        ranked(list).len() == list.len(),
        ranked(list).to_multiset() == list.to_multiset(),
    decreases list.len(),
{
    if list.len() > 0 {
        law_ranked_is_a_sorted_copy(list.drop_last());
        lemma_with_scored_in_order(ranked(list.drop_last()), list.last());
        list.drop_last().to_multiset_ensures();
        assert(list =~= list.drop_last().push(list.last()));
    }
}

/// The ranking depends on the results alone, not on the order they come in.
pub proof fn law_ranking_is_unique(a: Seq<Scored>, b: Seq<Scored>)
    requires
        a.to_multiset() == b.to_multiset(),
    ensures
        ranked(a) == ranked(b),
{
    law_ranked_is_a_sorted_copy(a);
    law_ranked_is_a_sorted_copy(b);
    let leq = |x: Scored, y: Scored| !better(y, x);
    assert(vstd::relations::total_ordering(leq)) by {
        assert forall|x: Scored| #[trigger] leq(x, x) by {
            law_rank_order_total(x, x);
        }
        assert forall|x: Scored, y: Scored| #[trigger] leq(x, y) && #[trigger] leq(
            y,
            x,
        ) implies x == y by {
            law_rank_order_total(x, y);
        }
        assert forall|x: Scored, y: Scored, z: Scored| #[trigger]
            leq(x, y) && #[trigger] leq(y, z) implies leq(x, z) by {
            lemma_not_better_chain(x, y, z);
        }
        assert forall|x: Scored, y: Scored| #[trigger] leq(x, y) || #[trigger] leq(y, x) by {
            law_rank_order_total(x, y);
        }
    }
    assert(vstd::relations::sorted_by(ranked(a), leq));
    assert(vstd::relations::sorted_by(ranked(b), leq));
    vstd::seq_lib::lemma_sorted_unique(ranked(a), ranked(b), leq);
}

/// Numbers come in the order of their values, the larger first, and equal ones
/// in the order of their keys: the bits of numbers with a plus sign grow with
/// them, those of numbers with a minus sign fall, and every number with a minus
/// sign is behind those with a plus sign.
pub proof fn law_larger_scores_come_first(a: Scored, b: Scored)
    ensures
        a.score < 0x8000_0000 && b.score < 0x8000_0000 && a.score > b.score ==> better(a, b),
        a.score >= 0x8000_0000 && b.score >= 0x8000_0000 && a.score < b.score ==> better(a, b),
        a.score < 0x8000_0000 && b.score >= 0x8000_0000 ==> better(a, b),
        a.score == b.score ==> better(a, b) == text_less(a.key, b.key),
        better(a, b) ==> !better(b, a),
{
    law_rank_order_total(a, b);
}

/// Texts come in the order of the first characters in which they differ, and a
/// text comes before those that go on from it.
pub proof fn law_text_order_is_by_the_first_difference(a: Seq<char>, b: Seq<char>, at: int)
    requires
        0 <= at <= a.len(),
        at < b.len(),
        forall|i: int| 0 <= i < at ==> #[trigger] a[i] == b[i],
        at < a.len() ==> (a[at] as int) < (b[at] as int),
    ensures
        text_less(a, b),
        !text_less(b, a),
    decreases a.len(),
{
    if at > 0 {
        assert(a[0] == b[0]);
        assert forall|i: int| 0 <= i < at - 1 implies #[trigger] a.drop_first()[i]
            == b.drop_first()[i] by {
            assert(a[i + 1] == b[i + 1]);
        }
        law_text_order_is_by_the_first_difference(a.drop_first(), b.drop_first(), at - 1);
    }
}

/// The head of a ranking holds no more than is asked for, nothing but what was
/// ranked, and that in order; and what was ranked is in it, or it is full of
/// results that are not worse. What occurs once is in it once at most.
pub proof fn law_the_best_are_kept(list: Seq<Scored>, want: nat)
    ensures
        ({
            let head = first_of(ranked(list), want);
            &&& head.len() <= want
            &&& head.len() <= list.len()
            &&& forall|i: int| 0 <= i < head.len() ==> list.contains(#[trigger] head[i])
            &&& forall|i: int, j: int|
                0 <= i < j < head.len() ==> !better(#[trigger] head[j], #[trigger] head[i])
            &&& forall|x: Scored| #[trigger]
                list.contains(x) ==> head.contains(x) || (head.len() == want && forall|i: int|
                    0 <= i < head.len() ==> !better(x, #[trigger] head[i]))
            &&& (forall|i: int, j: int|
                0 <= i < j < list.len() ==> (#[trigger] list[i]).key != (#[trigger] list[j]).key)
                ==> (forall|i: int, j: int|
                0 <= i < j < head.len() ==> (#[trigger] head[i]).key != (#[trigger] head[j]).key)
        }),
{
    law_ranked_is_a_sorted_copy(list);
    let all = ranked(list);
    let head = first_of(all, want);
    list.to_multiset_ensures();
    all.to_multiset_ensures();
    assert forall|i: int| 0 <= i < all.len() implies list.contains(#[trigger] all[i]) by {
        assert(all.contains(all[i]));
        assert(all.to_multiset().count(all[i]) > 0);
    }
    assert forall|i: int| 0 <= i < head.len() implies list.contains(#[trigger] head[i]) by {
        assert(head[i] == all[i]);
    }
    assert forall|x: Scored| #[trigger] list.contains(x) implies head.contains(x) || (head.len()
        == want && forall|i: int| 0 <= i < head.len() ==> !better(x, #[trigger] head[i])) by {
        assert(list.to_multiset().count(x) > 0);
        assert(all.contains(x));
        let at = choose|at: int| 0 <= at < all.len() && all[at] == x;
        if at < head.len() {
            assert(head[at] == x);
        } else {
            assert forall|i: int| 0 <= i < head.len() implies !better(x, #[trigger] head[i]) by {
                assert(head[i] == all[i]);
                assert(!better(all[at], all[i]));
            }
        }
    }
    if forall|i: int, j: int|
        0 <= i < j < list.len() ==> (#[trigger] list[i]).key != (#[trigger] list[j]).key {
        assert(list.no_duplicates()) by {
            assert forall|i: int, j: int| 0 <= i < list.len() && 0 <= j < list.len() && i
                != j implies list[i] != list[j] by {
                if i < j {
                    assert(list[i].key != list[j].key);
                } else {
                    assert(list[j].key != list[i].key);
                }
            }
        }
        list.lemma_multiset_has_no_duplicates();
        all.lemma_multiset_has_no_duplicates_conv();
        assert forall|i: int, j: int| 0 <= i < j < head.len() implies (#[trigger] head[i]).key != (
        #[trigger] head[j]).key by {
            assert(list.contains(all[i]) && list.contains(all[j]));
            let a = choose|a: int| 0 <= a < list.len() && list[a] == all[i];
            let b = choose|b: int| 0 <= b < list.len() && list[b] == all[j];
            if head[i].key == head[j].key {
                if a < b {
                    assert(list[a].key != list[b].key);
                } else if b < a {
                    assert(list[b].key != list[a].key);
                }
                assert(all[i] == all[j]);
            }
        }
    }
}

/// Keeping only the best `want` results along the way loses none of the best
/// `want` at the end.
proof fn lemma_keep_best(list: Seq<Scored>, x: Scored, want: nat)
    ensures
        first_of(with_scored(first_of(list, want), x), want) == first_of(
            with_scored(list, x),
            want,
        ),
{
    lemma_place(list, x);
    if list.len() > want {
        let head = list.take(want as int);
        let at = place_of(list, x) as int;
        if at < want {
            assert forall|i: int| 0 <= i < at implies !better(x, #[trigger] head[i]) by {
                assert(head[i] == list[i]);
            }
            assert(head[at] == list[at]);
            lemma_place_is(head, x, at);
        } else {
            assert forall|i: int| 0 <= i < want implies !better(x, #[trigger] head[i]) by {
                assert(head[i] == list[i]);
            }
            lemma_place_is(head, x, want as int);
        }
        assert(first_of(with_scored(head, x), want) =~= first_of(with_scored(list, x), want));
    }
}

/// Puts a result into its place in a list.
pub fn insert_scored(list: &mut Vec<ScoredSubject>, x: ScoredSubject)
    ensures
        scored_views(final(list)@) == with_scored(scored_views(old(list)@), x@),
        final(list)@.len() == old(list)@.len() + 1,
{
    let ghost before = scored_views(list@);
    let mut i: usize = 0;
    while i < list.len() && !is_better(&x, &list[i])
        invariant
            i <= list@.len(),
            before == scored_views(list@),
            forall|j: int| 0 <= j < i ==> !better(x@, #[trigger] before[j]),
        decreases list@.len() - i,
    {
        i = i + 1;
    }
    proof {
        lemma_place_is(before, x@, i as int);
    }
    let ghost value = x@;
    list.insert(i, x);
    assert(scored_views(list@) =~= before.insert(i as int, value));
}

/// One result comes before another.
pub fn is_better(a: &ScoredSubject, b: &ScoredSubject) -> (result: bool)
    ensures
        result == better(a@, b@),
{
    let x: i64 = rank_of(a.score);
    let y: i64 = rank_of(b.score);
    x > y || (x == y && comes_before(&a.subject_key, &b.subject_key))
}

fn rank_of(bits: u32) -> (result: i64)
    ensures
        result == rank32(bits),
{
    if bits < 0x8000_0000 {
        bits as i64
    } else {
        0x7FFF_FFFF - bits as i64
    }
}

/// The best results seen so far, at most `want` of them.
pub struct BoundedTopK {
    pub want: usize,
    pub kept: Vec<ScoredSubject>,
    pub seen: Ghost<Seq<Scored>>,
}

impl BoundedTopK {
    /// What is kept is the head of the ranking of everything seen.
    pub open spec fn wf(&self) -> bool {
        scored_views(self.kept@) == first_of(ranked(self.seen@), self.want as nat)
    }

    /// Nothing was seen yet.
    pub fn new(want: usize) -> (result: Self)
        ensures
            result.wf(),
            result.want == want,
            result.seen@ == Seq::<Scored>::empty(),
    {
        let result = BoundedTopK { want, kept: Vec::new(), seen: Ghost(Seq::empty()) };
        assert(scored_views(result.kept@) =~= Seq::<Scored>::empty());
        result
    }

    /// Takes a result into account.
    pub fn push(&mut self, score: u32, subject_key: &str)
        requires
            old(self).wf(),
        ensures
            final(self).wf(),
            final(self).want == old(self).want,
            final(self).seen@ == old(self).seen@.push(Scored { key: subject_key@, score }),
    {
        let ghost x = Scored { key: subject_key@, score };
        let ghost before = ranked(self.seen@);
        proof {
            lemma_keep_best(before, x, self.want as nat);
            let seen = self.seen@;
            assert(seen.push(x).drop_last() =~= seen);
            self.seen@ = seen.push(x);
        }
        let ghost kept = scored_views(self.kept@);
        insert_scored(
            &mut self.kept,
            ScoredSubject { subject_key: subject_key.to_owned(), score },
        );
        if self.kept.len() > self.want {
            let ghost whole = scored_views(self.kept@);
            assert(kept.len() <= self.want);
            self.kept.pop();
            assert(scored_views(self.kept@) =~= whole.take(self.want as int));
        }
    }

    /// The best results, the best first.
    pub fn into_sorted(self) -> (result: Vec<ScoredSubject>)
        requires
            self.wf(),
        ensures
            scored_views(result@) == first_of(ranked(self.seen@), self.want as nat),
    {
        self.kept
    }
}

} // verus!
