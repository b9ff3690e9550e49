//! Classifying a screenshot: the scores of its title, those of its text where
//! the title says too little, and the category that they come to.
//!
//! Numbers are added and multiplied by the caller, who says by a closure what
//! each sum comes to.
use crate::anchors::Anchor;
use crate::classifier::{winners, Classifier, IndexedAnchor};
use crate::scoring::{
    best, boost, judge_title, paired, process_prior, put_score, revalue, score_of, settle_category,
    top, Input, Scores, TitleVerdict,
};
use crate::{anchors, classifier, ieee, scoring, text};
use vstd::prelude::*;
use vstd::string::*;

verus! {

/// What is computed from scores, all of them double-precision numbers, by their
/// bits.
#[derive(Debug, Clone, Copy)]
pub enum Sum {
    /// The cosine, and a twentieth of what the weight is above one.
    Weigh { cosine: u64, weight: u64 },
    /// The score of all the other anchors, and the factor times that of the
    /// program's own.
    Blend { global: u64, factor: u64, local: u64 },
    /// Four fifths of the score of the title, and a fifth of that of the text.
    Mix { title: u64, text: u64 },
    /// The score, and 0.12.
    Raise { score: u64 },
}

/// The closure gives every sum one value.
pub open spec fn computes<F: Fn(Sum) -> u64>(f: F) -> bool {
    &&& forall|s: Sum| #[trigger] call_requires(f, (s,))
    &&& forall|s: Sum, a: u64, b: u64| #[trigger]
        call_ensures(f, (s,), a) && #[trigger] call_ensures(f, (s,), b) ==> a == b
}

/// The value that the closure gives a sum.
pub open spec fn value<F: Fn(Sum) -> u64>(f: F, s: Sum) -> u64 {
    choose|v: u64| call_ensures(f, (s,), v)
}

fn compute<F: Fn(Sum) -> u64>(f: &F, s: Sum) -> (result: u64)
    requires
        computes(*f),
    ensures
        result == value(*f, s),
{
    f(s)
}

/// The scores of the categories whose anchors won.
pub open spec fn weighed<F: Fn(Sum) -> u64>(
    f: F,
    rows: Seq<IndexedAnchor>,
    cosines: Seq<u64>,
    winners: Seq<int>,
) -> Seq<u64> {
    Seq::new(
        winners.len(),
        |i: int|
            value(
                f,
                Sum::Weigh { cosine: cosines[winners[i]], weight: rows[winners[i]].anchor.weight },
            ),
    )
}

/// The scores of a vector in one channel, by the cosines of all anchors with
/// it: for each category the score of its winner, and zero for those that none
/// speaks for.
pub open spec fn channel<F: Fn(Sum) -> u64>(
    f: F,
    list: Seq<(Seq<char>, Seq<Anchor>)>,
    rows: Seq<IndexedAnchor>,
    cosines: Seq<u64>,
    process: Seq<char>,
    local: bool,
) -> Seq<(Seq<char>, u64)> {
    let won = classifier::winners_of(rows, cosines, process, local, rows.len());
    classifier::with_zeros(
        classifier::won_scores(rows, won, weighed(f, rows, cosines, won), won.len()),
        list,
        list.len(),
    )
}

/// The anchor is heard in a channel: among a program's own anchors those that
/// say so in their scope and name the program, among the others all that do not
/// say so; and its cosine is not below 0.3.
pub open spec fn heard(row: IndexedAnchor, cosine: u64, process: Seq<char>, local: bool) -> bool {
    let own = text::lowercase_of(row.anchor.scope@) == "local"@;
    let program = match row.anchor.process_name {
        Some(name) => scoring::normalized(name@),
        None => scoring::normalized(""@),
    };
    &&& !ieee::below(cosine, 0x3FD3_3333_3333_3333)
    &&& if local {
        own && process.len() > 0 && program == process
    } else {
        !own
    }
}

proof fn lemma_won_scores(rows: Seq<IndexedAnchor>, winners: Seq<int>, values: Seq<u64>, n: nat)
    requires
        n <= winners.len(),
        classifier::won_once(rows, winners),
    ensures
        ({
            let scores = classifier::won_scores(rows, winners, values, n);
            &&& forall|i: int|
                0 <= i < n ==> {
                    let category = rows[#[trigger] winners[i]].category@;
                    anchors::listed(scores, category) && scoring::score_or_zero(scores, category)
                        == values[i]
                }
            &&& forall|category: Seq<char>| #[trigger]
                anchors::listed(scores, category) ==> exists|i: int|
                    0 <= i < n && rows[#[trigger] winners[i]].category@ == category
        }),
    decreases n,
{
    if n > 0 {
        let k = (n - 1) as nat;
        lemma_won_scores(rows, winners, values, k);
        let before = classifier::won_scores(rows, winners, values, k);
        let scores = classifier::won_scores(rows, winners, values, n);
        let last = rows[winners[n - 1]].category@;
        anchors::law_put_is_found(before, last, values[n - 1], last);
        assert forall|i: int| 0 <= i < n implies {
            let category = rows[#[trigger] winners[i]].category@;
            anchors::listed(scores, category) && scoring::score_or_zero(scores, category)
                == values[i]
        } by {
            if i < n - 1 {
                assert(rows[winners[i]].category@ != last);
                anchors::law_put_is_found(before, last, values[n - 1], rows[winners[i]].category@);
            }
        }
        assert forall|category: Seq<char>| #[trigger]
            anchors::listed(scores, category) implies exists|i: int|
            0 <= i < n && rows[#[trigger] winners[i]].category@ == category by {
            if category != last {
                anchors::law_put_is_found(before, last, values[n - 1], category);
                assert(anchors::listed(before, category));
                let i = choose|i: int|
                    0 <= i < k && rows[#[trigger] winners[i]].category@ == category;
                assert(rows[winners[i]].category@ == category);
            } else {
                assert(rows[winners[n - 1]].category@ == category);
            }
        }
    }
}

proof fn lemma_with_zeros(
    scores: Seq<(Seq<char>, u64)>,
    list: Seq<(Seq<char>, Seq<Anchor>)>,
    n: nat,
    category: Seq<char>,
)
    requires
        n <= list.len(),
    ensures
        ({
            let all = classifier::with_zeros(scores, list, n);
            &&& anchors::listed(scores, category) ==> anchors::listed(all, category)
                && scoring::score_or_zero(all, category) == scoring::score_or_zero(scores, category)
            &&& !anchors::listed(scores, category) ==> scoring::score_or_zero(all, category) == 0
            &&& anchors::listed(all, category) <==> anchors::listed(scores, category) || exists|
                i: int,
            |
                0 <= i < n && (#[trigger] list[i]).0 == category
        }),
    decreases n,
{
    if n > 0 {
        lemma_with_zeros(scores, list, (n - 1) as nat, category);
        let before = classifier::with_zeros(scores, list, (n - 1) as nat);
        let last = list[n - 1].0;
        if !anchors::listed(before, last) {
            assert(before.push((last, 0u64)) == anchors::put(before, last, 0u64));
            anchors::law_put_is_found(before, last, 0u64, category);
        }
    }
}

/// The score of a category in a channel is that of the anchor which speaks for
/// it best: the weighing of its cosine and of its own weight. It speaks best
/// where no other that is heard has a larger cosine, and none before it the
/// same.
pub proof fn law_the_best_anchor_is_weighed<F: Fn(Sum) -> u64>(
    f: F,
    list: Seq<(Seq<char>, Seq<Anchor>)>,
    rows: Seq<IndexedAnchor>,
    cosines: Seq<u64>,
    process: Seq<char>,
    local: bool,
    w: int,
)
    requires
        cosines.len() == rows.len(),
        0 <= w < rows.len(),
        heard(rows[w], cosines[w], process, local),
        forall|r: int| 0 <= r < rows.len() ==> !ieee::is_nan(#[trigger] cosines[r]),
        forall|r: int|
            0 <= r < rows.len() && (#[trigger] rows[r]).category@ == rows[w].category@ && heard(
                rows[r],
                cosines[r],
                process,
                local,
            ) ==> !ieee::below(cosines[w], cosines[r]) && (r < w ==> ieee::below(
                cosines[r],
                cosines[w],
            )),
    ensures
        ({
            let scores = channel(f, list, rows, cosines, process, local);
            &&& anchors::listed(scores, rows[w].category@)
            &&& scoring::score_or_zero(scores, rows[w].category@) == value(
                f,
                Sum::Weigh { cosine: cosines[w], weight: rows[w].anchor.weight },
            )
        }),
{
    let won = classifier::winners_of(rows, cosines, process, local, rows.len());
    classifier::law_winners(rows, cosines, process, local, rows.len());
    classifier::law_winner_is_not_beaten(rows, cosines, process, local, rows.len(), w);
    let at = classifier::winner_place(rows, won, rows[w].category@);
    let v = won[at];
    assert(heard(rows[v], cosines[v], process, local));
    assert(rows[v].category@ == rows[w].category@);
    assert(v == w);
    lemma_won_scores(rows, won, weighed(f, rows, cosines, won), won.len());
    assert(rows[won[at]].category@ == rows[w].category@);
    lemma_with_zeros(
        classifier::won_scores(rows, won, weighed(f, rows, cosines, won), won.len()),
        list,
        list.len(),
        rows[w].category@,
    );
}

/// A category for which no anchor is heard in a channel has the score zero
/// there, and every category has a score.
pub proof fn law_unheard_categories_score_nothing<F: Fn(Sum) -> u64>(
    f: F,
    list: Seq<(Seq<char>, Seq<Anchor>)>,
    rows: Seq<IndexedAnchor>,
    cosines: Seq<u64>,
    process: Seq<char>,
    local: bool,
    category: Seq<char>,
)
    requires
        cosines.len() == rows.len(),
    ensures
        ({
            let scores = channel(f, list, rows, cosines, process, local);
            &&& forall|i: int|
                0 <= i < list.len() ==> anchors::listed(scores, (#[trigger] list[i]).0)
            &&& (forall|r: int|
                0 <= r < rows.len() && (#[trigger] rows[r]).category@ == category ==> !heard(
                    rows[r],
                    cosines[r],
                    process,
                    local,
                )) ==> scoring::score_or_zero(scores, category) == 0
        }),
{
    let won = classifier::winners_of(rows, cosines, process, local, rows.len());
    classifier::law_winners(rows, cosines, process, local, rows.len());
    let scores = classifier::won_scores(rows, won, weighed(f, rows, cosines, won), won.len());
    lemma_won_scores(rows, won, weighed(f, rows, cosines, won), won.len());
    assert forall|i: int| 0 <= i < list.len() implies anchors::listed(
        channel(f, list, rows, cosines, process, local),
        (#[trigger] list[i]).0,
    ) by {
        lemma_with_zeros(scores, list, list.len(), list[i].0);
    }
    if forall|r: int|
        0 <= r < rows.len() && (#[trigger] rows[r]).category@ == category ==> !heard(
            rows[r],
            cosines[r],
            process,
            local,
        ) {
        if anchors::listed(scores, category) {
            let i = choose|i: int|
                0 <= i < won.len() && rows[#[trigger] won[i]].category@ == category;
            let v = won[i];
            assert(classifier::eligible(rows[v].anchor, process, local));
            assert(heard(rows[v], cosines[v], process, local));
        }
        lemma_with_zeros(scores, list, list.len(), category);
    }
}

/// Of two screenshots that are as near to the anchor which speaks best for a
/// category, the one whose anchor weighs more gets the larger score, where
/// weighing gives more weight more.
pub proof fn law_heavier_anchors_score_higher<F: Fn(Sum) -> u64>(
    f: F,
    list: Seq<(Seq<char>, Seq<Anchor>)>,
    light: IndexedAnchor,
    heavy: IndexedAnchor,
    cosine: u64,
    process: Seq<char>,
    local: bool,
)
    requires
        !ieee::is_nan(cosine),
        heard(light, cosine, process, local),
        heard(heavy, cosine, process, local),
        light.category@ == heavy.category@,
        ieee::below(light.anchor.weight, heavy.anchor.weight),
        forall|a: u64, b: u64|
            ieee::below(a, b) ==> ieee::below(
                #[trigger] value(f, Sum::Weigh { cosine, weight: a }),
                #[trigger] value(f, Sum::Weigh { cosine, weight: b }),
            ),
    ensures
        ieee::below(
            scoring::score_or_zero(
                channel(f, list, seq![light], seq![cosine], process, local),
                light.category@,
            ),
            scoring::score_or_zero(
                channel(f, list, seq![heavy], seq![cosine], process, local),
                light.category@,
            ),
        ),
{
    law_the_best_anchor_is_weighed(f, list, seq![light], seq![cosine], process, local, 0);
    law_the_best_anchor_is_weighed(f, list, seq![heavy], seq![cosine], process, local, 0);
}

/// The factor by which the scores of a program's own anchors count.
pub open spec fn factor_of(list: Seq<(Seq<char>, Seq<Anchor>)>, local: Seq<(Seq<char>, u64)>) -> u64 {
    scoring::boost_of(classifier::speaking(list, local, list.len()).len())
}

/// The scores of both channels, blended.
pub open spec fn blend_of<F: Fn(Sum) -> u64>(
    f: F,
    list: Seq<(Seq<char>, Seq<Anchor>)>,
    local: Seq<(Seq<char>, u64)>,
    global: Seq<(Seq<char>, u64)>,
) -> Seq<(Seq<char>, u64)> {
    Seq::new(
        list.len(),
        |i: int|
            (
                list[i].0,
                value(
                    f,
                    Sum::Blend {
                        global: scoring::score_or_zero(global, list[i].0),
                        factor: factor_of(list, local),
                        local: scoring::score_or_zero(local, list[i].0),
                    },
                ),
            ),
    )
}

/// The scores of the title with those of the text mixed in.
pub open spec fn mix_of<F: Fn(Sum) -> u64>(
    f: F,
    scores: Seq<(Seq<char>, u64)>,
    others: Seq<(Seq<char>, u64)>,
) -> Seq<(Seq<char>, u64)> {
    Seq::new(
        scores.len(),
        |i: int|
            (
                scores[i].0,
                value(
                    f,
                    Sum::Mix {
                        title: scores[i].1,
                        text: scoring::score_or_zero(others, scores[i].0),
                    },
                ),
            ),
    )
}

/// The scores with that of the category that the program speaks for raised,
/// where it has one.
pub open spec fn raised<F: Fn(Sum) -> u64>(
    f: F,
    scores: Seq<(Seq<char>, u64)>,
    prior: Option<Seq<char>>,
) -> Seq<(Seq<char>, u64)> {
    match prior {
        Some(category) => if anchors::listed(scores, category) {
            anchors::put(
                scores,
                category,
                value(f, Sum::Raise { score: scoring::score_or_zero(scores, category) }),
            )
        } else {
            scores
        },
        None => scores,
    }
}

proof fn lemma_speaking(
    list: Seq<(Seq<char>, Seq<Anchor>)>,
    scores: Seq<(Seq<char>, u64)>,
    n: nat,
)
    requires
        n <= list.len(),
    ensures
        ({
            let loud = vstd::set_lib::set_int_range(0, n as int).filter(
                |i: int| ieee::below(0, scoring::score_or_zero(scores, list[i].0)),
            );
            loud.finite() && classifier::speaking(list, scores, n).len() == loud.len()
        }),
    decreases n,
{
    let f = |i: int| ieee::below(0, scoring::score_or_zero(scores, list[i].0));
    let loud = vstd::set_lib::set_int_range(0, n as int).filter(f);
    vstd::set_lib::lemma_int_range(0, n as int);
    vstd::set_lib::set_int_range(0, n as int).lemma_len_filter(f);
    if n > 0 {
        lemma_speaking(list, scores, (n - 1) as nat);
        let before = vstd::set_lib::set_int_range(0, n - 1).filter(f);
        if f(n - 1) {
            assert(loud =~= before.insert(n - 1));
        } else {
            assert(loud =~= before);
        }
    } else {
        assert(loud =~= Set::<int>::empty());
    }
}

/// A blended score is that of the category among all the other anchors, and so
/// much of that among the program's own: nothing, 0.15, 0.3 or 0.5 of it, as
/// none, one, two or three, or more of the categories have a score above zero
/// there.
pub proof fn law_own_anchors_count_by_their_diversity<F: Fn(Sum) -> u64>(
    f: F,
    list: Seq<(Seq<char>, Seq<Anchor>)>,
    local: Seq<(Seq<char>, u64)>,
    global: Seq<(Seq<char>, u64)>,
    at: int,
)
    requires
        0 <= at < list.len(),
    ensures
        ({
            let loud = vstd::set_lib::set_int_range(0, list.len() as int).filter(
                |i: int| ieee::below(0, scoring::score_or_zero(local, list[i].0)),
            ).len();
            let blended = blend_of(f, list, local, global);
            let with = |factor: u64|
                value(
                    f,
                    Sum::Blend {
                        global: scoring::score_or_zero(global, list[at].0),
                        factor,
                        local: scoring::score_or_zero(local, list[at].0),
                    },
                );
            &&& blended.len() == list.len()
            &&& blended[at].0 == list[at].0
            &&& loud == 0 ==> blended[at].1 == with(0)
            &&& loud == 1 ==> blended[at].1 == with(0x3FC3_3333_3333_3333)
            &&& loud == 2 || loud == 3 ==> blended[at].1 == with(0x3FD3_3333_3333_3333)
            &&& loud >= 4 ==> blended[at].1 == with(0x3FE0_0000_0000_0000)
        }),
{
    lemma_speaking(list, local, list.len());
}

/// The text of a screenshot goes into the score of the same category, and the
/// program speaks for one category alone: the others keep their scores.
pub proof fn law_texts_and_programs_speak_for_their_categories<F: Fn(Sum) -> u64>(
    f: F,
    scores: Seq<(Seq<char>, u64)>,
    others: Seq<(Seq<char>, u64)>,
    favoured: Seq<char>,
    category: Seq<char>,
)
    requires
        anchors::listed(scores, category),
    ensures
        ({
            let mixed = mix_of(f, scores, others);
            &&& anchors::listed(mixed, category)
            &&& scoring::score_or_zero(mixed, category) == value(
                f,
                Sum::Mix {
                    title: scoring::score_or_zero(scores, category),
                    text: scoring::score_or_zero(others, category),
                },
            )
            &&& anchors::listed(raised(f, scores, Some(favoured)), category)
            &&& scoring::score_or_zero(raised(f, scores, Some(favoured)), category)
                == if category == favoured {
                value(f, Sum::Raise { score: scoring::score_or_zero(scores, category) })
            } else {
                scoring::score_or_zero(scores, category)
            }
            &&& raised(f, scores, None) == scores
            &&& raised(f, scores, Some(favoured)).len() == scores.len()
        }),
{
    let mixed = mix_of(f, scores, others);
    anchors::lemma_place(scores, category);
    let at = anchors::place(scores, category);
    assert forall|i: int| 0 <= i < at implies (#[trigger] mixed[i]).0 != category by {
        assert(scores[i].0 != category);
    }
    anchors::lemma_place_is(mixed, category, at);
    assert(mixed[at].0 == scores[at].0);
    anchors::lemma_place(scores, favoured);
    anchors::law_put_is_found(
        scores,
        favoured,
        value(f, Sum::Raise { score: scoring::score_or_zero(scores, favoured) }),
        category,
    );
}

/// What a classification comes to: nothing where the best score is no score,
/// else a category and that score. The category is one that has the best score,
/// where that is not below 0.38, and none otherwise.
pub open spec fn concluded(
    scores: Seq<(Seq<char>, u64)>,
    category: Seq<char>,
    score: u64,
) -> bool {
    let found = scoring::best_of(scores);
    &&& ieee::is_finite(found.1)
    &&& !ieee::below(found.1, 0)
    &&& score == found.1
    &&& category == if ieee::below(found.1, 0x3FD8_51EB_851E_B852) {
        scoring::UNCATEGORIZED@
    } else {
        found.0
    }
}

/// A screenshot is put under a category whose score is not below 0.38 and not
/// below that of any other; where every score is below 0.38 it is put under
/// none.
pub proof fn law_the_best_category_is_named(
    scores: Seq<(Seq<char>, u64)>,
    category: Seq<char>,
    score: u64,
)
    requires
        scores.len() > 0,
        concluded(scores, category, score),
    ensures
        forall|i: int| 0 <= i < scores.len() ==> !ieee::below(score, (#[trigger] scores[i]).1),
        score < 0x3FD8_51EB_851E_B852 || score >= 0x8000_0000_0000_0000 ==> category == "未分类"@,
        0x3FD8_51EB_851E_B852 <= score < 0x8000_0000_0000_0000 ==> exists|i: int|
            0 <= i < scores.len() && #[trigger] scores[i] == (category, score),
{
    assert forall|i: int| 0 <= i < scores.len() implies !ieee::below(
        score,
        (#[trigger] scores[i]).1,
    ) by {
        scoring::law_best_is_not_beaten(scores, i);
    }
    ieee::law_bits_are_ordered_as_numbers(score, 0x3FD8_51EB_851E_B852);
    ieee::law_bits_are_ordered_as_numbers(score, 0);
    scoring::lemma_best_is_listed(scores);
}

/// The scores of a title, and what they decide.
pub struct TitleScores {
    pub local: Scores,
    pub global: Scores,
    pub scores: Scores,
    pub verdict: TitleVerdict,
}

/// What a classification comes to, and how. Scores are double-precision
/// numbers, by their bits.
#[derive(Debug)]
pub struct Classification {
    pub category: String,
    pub score: u64,
    pub used_ocr: bool,
    pub local_veto_active: bool,
    pub process_prior_applied: Option<String>,
    pub top_scores: Vec<(String, u64)>,
    pub local_categories: Vec<String>,
    pub local_top: Vec<(String, u64)>,
    pub global_top: Vec<(String, u64)>,
}

/// The first entries of the scores, the best first.
pub open spec fn leaders(scores: Seq<(Seq<char>, u64)>, count: nat) -> Seq<(Seq<char>, u64)> {
    let sorted = scoring::best_first(scores);
    if sorted.len() <= count {
        sorted
    } else {
        sorted.take(count as int)
    }
}

impl Classifier {
    /// The scores of a vector in one channel, by the cosines of all anchors
    /// with it.
    pub fn score<F: Fn(Sum) -> u64>(
        &self,
        rows: &Vec<IndexedAnchor>,
        cosines: &Vec<u64>,
        process: &str,
        local: bool,
        f: &F,
    ) -> (result: Scores)
        requires
            cosines@.len() == rows@.len(),
            computes(*f),
        ensures
            scoring::scored(result) == channel(
                *f,
                anchors::entries(self.anchors),
                rows@,
                cosines@,
                scoring::normalized(process@),
                local,
            ),
    {
        let won = winners(rows, cosines, process, local);
        let ghost places = classifier::as_ints(won@);
        let mut values: Vec<u64> = Vec::new();
        let mut i: usize = 0;
        while i < won.len()
            invariant
                i <= won@.len(),
                i == values@.len(),
                computes(*f),
                cosines@.len() == rows@.len(),
                places == classifier::as_ints(won@),
                forall|j: int| 0 <= j < won@.len() ==> (#[trigger] won@[j]) < rows@.len(),
                forall|j: int|
                    0 <= j < i ==> #[trigger] values@[j] == weighed(
                        *f,
                        rows@,
                        cosines@,
                        places,
                    )[j],
            decreases won@.len() - i,
        {
            let at: usize = won[i];
            assert(places[i as int] == at);
            let weighted: u64 = compute(
                f,
                Sum::Weigh { cosine: cosines[at], weight: rows[at].anchor.weight },
            );
            values.push(weighted);
            i = i + 1;
        }
        assert(values@ =~= weighed(*f, rows@, cosines@, places));
        self.scores(rows, &won, &values)
    }

    /// The scores of both channels, blended.
    pub fn blend<F: Fn(Sum) -> u64>(&self, local: &Scores, global: &Scores, f: &F) -> (result: Scores)
        requires
            computes(*f),
        ensures
            scoring::scored(result) == blend_of(
                *f,
                anchors::entries(self.anchors),
                scoring::scored(*local),
                scoring::scored(*global),
            ),
    {
        let ghost list = anchors::entries(self.anchors);
        let speaking = self.speaking_categories(local);
        let factor: u64 = boost(speaking.len());
        assert(text::texts(speaking@).len() == speaking@.len());
        let pairs = self.blend_inputs(local, global);
        let ghost wanted = blend_of(*f, list, scoring::scored(*local), scoring::scored(*global));
        let mut values: Vec<u64> = Vec::new();
        let mut i: usize = 0;
        while i < pairs.len()
            invariant
                i <= pairs@.len(),
                i == values@.len(),
                computes(*f),
                list == anchors::entries(self.anchors),
                factor == factor_of(list, scoring::scored(*local)),
                wanted == blend_of(*f, list, scoring::scored(*local), scoring::scored(*global)),
                pairs@ == list.map_values(
                    |e: (Seq<char>, Seq<Anchor>)|
                        (
                            scoring::score_or_zero(scoring::scored(*global), e.0),
                            scoring::score_or_zero(scoring::scored(*local), e.0),
                        ),
                ),
                forall|j: int| 0 <= j < i ==> #[trigger] values@[j] == wanted[j].1,
            decreases pairs@.len() - i,
        {
            let (general, own) = pairs[i];
            let blended: u64 = compute(f, Sum::Blend { global: general, factor, local: own });
            values.push(blended);
            i = i + 1;
        }
        let scores = self.blended(&values);
        assert(scoring::scored(scores) =~= wanted);
        scores
    }

    /// Scores a title and judges it, by the cosines of all anchors with the
    /// vector of the text that the program's own anchors are compared with, and
    /// with that of the cleaned title.
    pub fn score_title<F: Fn(Sum) -> u64>(
        &self,
        rows: &Vec<IndexedAnchor>,
        input: &Input,
        debug: bool,
        own_cosines: &Vec<u64>,
        clean_cosines: &Vec<u64>,
        f: &F,
    ) -> (result: TitleScores)
        requires
            own_cosines@.len() == rows@.len(),
            clean_cosines@.len() == rows@.len(),
            computes(*f),
        ensures
            ({
                let list = anchors::entries(self.anchors);
                let process = scoring::normalized(input.process_name@);
                let local = channel(*f, list, rows@, own_cosines@, process, true);
                let global = channel(*f, list, rows@, clean_cosines@, process, false);
                let scores = blend_of(*f, list, local, global);
                let ocr = scoring::looked_at(input.ocr_text@, debug);
                &&& scoring::scored(result.local) == local
                &&& scoring::scored(result.global) == global
                &&& scoring::scored(result.scores) == scores
                &&& result.verdict.veto == scoring::vetoes(scores, local)
                &&& result.verdict.needs_ocr == (ieee::below(
                    scoring::best_of(scores).1,
                    0x3FE1_9999_9999_999A,
                ) && text::trimmed(ocr).len() > 0)
                &&& match result.verdict.snippet {
                    Some(s) => {
                        &&& result.verdict.needs_ocr
                        &&& !result.verdict.veto
                        &&& s@ == scoring::snippet_of(scoring::cleaned_ocr(ocr), ocr)
                    },
                    None => !result.verdict.needs_ocr || result.verdict.veto,
                }
            }),
    {
        let local = self.score(rows, own_cosines, &input.process_name, true, f);
        let global = self.score(rows, clean_cosines, &input.process_name, false, f);
        let scores = self.blend(&local, &global, f);
        let verdict = judge_title(&scores, &local, input, debug);
        TitleScores { local, global, scores, verdict }
    }

    /// The scores with those of the text mixed in, by the cosines of all
    /// anchors with the vector of the text.
    pub fn mix_text<F: Fn(Sum) -> u64>(
        &self,
        rows: &Vec<IndexedAnchor>,
        scores: &Scores,
        process: &str,
        cosines: &Vec<u64>,
        f: &F,
    ) -> (result: Scores)
        requires
            cosines@.len() == rows@.len(),
            computes(*f),
        ensures
            ({
                let list = anchors::entries(self.anchors);
                let normal = scoring::normalized(process@);
                scoring::scored(result) == mix_of(
                    *f,
                    scoring::scored(*scores),
                    blend_of(
                        *f,
                        list,
                        channel(*f, list, rows@, cosines@, normal, true),
                        channel(*f, list, rows@, cosines@, normal, false),
                    ),
                )
            }),
    {
        let local = self.score(rows, cosines, process, true, f);
        let global = self.score(rows, cosines, process, false, f);
        let others = self.blend(&local, &global, f);
        let pairs = paired(scores, &others);
        let ghost list = scoring::scored(*scores);
        let ghost wanted = mix_of(*f, list, scoring::scored(others));
        let mut values: Vec<u64> = Vec::new();
        let mut i: usize = 0;
        while i < pairs.len()
            invariant
                i <= pairs@.len(),
                i == values@.len(),
                computes(*f),
                wanted == mix_of(*f, list, scoring::scored(others)),
                pairs@ == list.map_values(
                    |e: (Seq<char>, u64)|
                        (e.1, scoring::score_or_zero(scoring::scored(others), e.0)),
                ),
                forall|j: int| 0 <= j < i ==> #[trigger] values@[j] == wanted[j].1,
            decreases pairs@.len() - i,
        {
            let (title, text) = pairs[i];
            let mixed: u64 = compute(f, Sum::Mix { title, text });
            values.push(mixed);
            i = i + 1;
        }
        let mixed = revalue(scores, &values);
        assert(scoring::scored(mixed) =~= wanted);
        mixed
    }

    /// The category that a title comes to, with the text of the screenshot
    /// where it is compared too: `text_cosines` are the cosines of all anchors
    /// with the vector of the text that the verdict names.
    pub fn conclude<F: Fn(Sum) -> u64>(
        &self,
        rows: &Vec<IndexedAnchor>,
        title: TitleScores,
        process: &str,
        text_cosines: Option<&Vec<u64>>,
        priors: &Vec<(String, String)>,
        f: &F,
    ) -> (result: Result<Classification, String>)
        requires
            text_cosines is Some == (title.verdict.snippet is Some),
            text_cosines matches Some(cosines) ==> cosines@.len() == rows@.len(),
            computes(*f),
        ensures
            ({
                let list = anchors::entries(self.anchors);
                let normal = scoring::normalized(process@);
                let prior = scoring::prior_of(priors@, normal);
                let mixed = match text_cosines {
                    Some(cosines) => mix_of(
                        *f,
                        scoring::scored(title.scores),
                        blend_of(
                            *f,
                            list,
                            channel(*f, list, rows@, cosines@, normal, true),
                            channel(*f, list, rows@, cosines@, normal, false),
                        ),
                    ),
                    None => scoring::scored(title.scores),
                };
                let scores = raised(*f, mixed, prior);
                let found = scoring::best_of(scores);
                match result {
                    Err(e) => (!ieee::is_finite(found.1) || ieee::below(found.1, 0)) && e@
                        == "invalid weighted classification score"@,
                    Ok(settled) => {
                        &&& concluded(scores, settled.category@, settled.score)
                        &&& settled.used_ocr == (text_cosines is Some)
                        &&& settled.local_veto_active == (title.verdict.needs_ocr
                            && title.verdict.veto)
                        &&& match settled.process_prior_applied {
                            Some(category) => prior == Some(category@),
                            None => prior is None,
                        }
                        &&& scoring::score_views(settled.top_scores@) == leaders(scores, 5)
                        &&& text::texts(settled.local_categories@) == classifier::speaking(
                            list,
                            scoring::scored(title.local),
                            list.len(),
                        )
                        &&& scoring::score_views(settled.local_top@) == leaders(
                            scoring::scored(title.local),
                            3,
                        )
                        &&& scoring::score_views(settled.global_top@) == leaders(
                            scoring::scored(title.global),
                            3,
                        )
                    },
                }
            }),
    {
        let mut scores = match text_cosines {
            Some(cosines) => self.mix_text(rows, &title.scores, process, cosines, f),
            None => title.scores,
        };
        let prior = process_prior(priors, process);
        match &prior {
            Some(category) => match score_of(&scores, category) {
                Some(score) => {
                    let more: u64 = compute(f, Sum::Raise { score: *score });
                    put_score(&mut scores, category.clone(), more);
                },
                None => {},
            },
            None => {},
        }
        let (category, score) = best(&scores);
        match settle_category(category, score) {
            Err(e) => Err(e),
            Ok(category) => Ok(
                Classification {
                    category,
                    score,
                    used_ocr: text_cosines.is_some(),
                    local_veto_active: title.verdict.needs_ocr && title.verdict.veto,
                    process_prior_applied: prior,
                    top_scores: top(&scores, 5),
                    local_categories: self.speaking_categories(&title.local),
                    local_top: top(&title.local, 3),
                    global_top: top(&title.global, 3),
                },
            ),
        }
    }
}

/// The leaders are the best: as many as asked for, or all where there are fewer,
/// in falling order, and nothing that is left out stands above them.
pub proof fn law_the_leaders_are_the_best(
    scores: Seq<(Seq<char>, u64)>,
    count: nat,
    i: int,
    j: int,
)
    requires
        0 <= i < leaders(scores, count).len(),
        i < j < scores.len(),
    ensures
        leaders(scores, count).len() == if scores.len() <= count {
            scores.len()
        } else {
            count
        },
        leaders(scores, count)[i] == scoring::best_first(scores)[i],
        ieee::total_position(leaders(scores, count)[i].1) >= ieee::total_position(
            scoring::best_first(scores)[j].1,
        ),
{
    scoring::law_best_come_first(scores, i, j);
}

} // verus!
