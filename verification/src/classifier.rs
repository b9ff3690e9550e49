//! The classifier: anchors, their vectors, and what feedback teaches.
use crate::anchors::{
    category_at, category_count, drop_category, has_category, put_rows, take_rows, validate_anchors,
    Anchor, AnchorModel, Anchors, WEIGHT_ONE_AND_A_HALF, WEIGHT_TWO,
};
use crate::scoring::{
    informative, learned_snippet, no_scores, normalize_process, put_score, score_of,
    strip_app_suffix, validate_vectors, value_or_zero, Input, Scores, UNCATEGORIZED,
};
use crate::{anchors, ieee, scoring, text};
use vstd::prelude::*;
use vstd::string::*;

verus! {

/// An anchor with its category and its vector, whose numbers are
/// single-precision numbers, by their bits.
#[derive(Debug)]
pub struct IndexedAnchor {
    pub category: String,
    pub anchor: Anchor,
    pub vector: Vec<u32>,
}

/// The anchors, and their vectors once they were made.
pub struct Classifier {
    pub anchors: Anchors,
    pub index: Option<Vec<IndexedAnchor>>,
}

/// The anchors with texts under a category.
pub open spec fn flat_rows(category: Seq<char>, rows: Seq<AnchorModel>) -> Seq<
    (Seq<char>, AnchorModel),
>
    decreases rows.len(),
{
    if rows.len() == 0 {
        Seq::empty()
    } else {
        let before = flat_rows(category, rows.drop_last());
        if text::trimmed(rows.last().text).len() > 0 {
            before.push((category, rows.last()))
        } else {
            before
        }
    }
}

/// The anchors with texts, each with its category.
pub open spec fn flat(list: Seq<(Seq<char>, Seq<AnchorModel>)>) -> Seq<(Seq<char>, AnchorModel)>
    decreases list.len(),
{
    if list.len() == 0 {
        Seq::empty()
    } else {
        flat(list.drop_last()) + flat_rows(list.last().0, list.last().1)
    }
}

/// What anchors with categories say.
pub open spec fn row_views(rows: Seq<(String, Anchor)>) -> Seq<(Seq<char>, AnchorModel)> {
    rows.map_values(|r: (String, Anchor)| (r.0@, r.1.model()))
}

/// The vectors of the anchors while they are made, some at a time.
pub struct IndexBuild {
    pub rows: Vec<(String, Anchor)>,
    pub vectors: Vec<Vec<u32>>,
    pub batch: usize,
}

impl IndexBuild {
    /// There is not more than one vector for each anchor, and all are alike.
    pub open spec fn wf(&self) -> bool {
        &&& self.batch > 0
        &&& self.vectors@.len() <= self.rows@.len()
        &&& self.vectors@.len() > 0 ==> scoring::sound_vectors(
            self.vectors@,
            self.vectors@.len(),
            None,
        )
    }

    /// How many anchors the next batch has.
    pub open spec fn next_len(&self) -> int {
        let left = self.rows@.len() - self.vectors@.len();
        if left < self.batch {
            left
        } else {
            self.batch as int
        }
    }

    /// The texts of the next batch; none once all vectors were made.
    pub fn next_batch(&self) -> (result: Vec<String>)
        requires
            self.wf(),
        ensures
            result@.len() == self.next_len(),
            forall|i: int|
                0 <= i < result@.len() ==> (#[trigger] result@[i])@ == self.rows@[self.vectors@.len()
                    + i].1.text@,
    {
        let done: usize = self.vectors.len();
        let total: usize = self.rows.len();
        let left: usize = total - done;
        let size: usize = if left < self.batch {
            left
        } else {
            self.batch
        };
        let mut texts: Vec<String> = Vec::new();
        let mut i: usize = 0;
        while i < size
            invariant
                i <= size,
                done + size <= total == self.rows@.len(),
                done == self.vectors@.len(),
                texts@.len() == i,
                forall|j: int|
                    0 <= j < i ==> (#[trigger] texts@[j])@ == self.rows@[done + j].1.text@,
            decreases size - i,
        {
            texts.push(self.rows[done + i].1.text.clone());
            i = i + 1;
        }
        texts
    }

    /// The vectors of the next batch were made.
    pub fn encoded(&mut self, vectors: Vec<Vec<u32>>) -> (result: Result<(), String>)
        requires
            old(self).wf(),
            old(self).next_len() > 0,
        ensures
            final(self).wf(),
            final(self).rows == old(self).rows,
            final(self).batch == old(self).batch,
            ({
                let expected = if old(self).vectors@.len() > 0 {
                    Some(old(self).vectors@[0].len())
                } else {
                    None
                };
                let sound = scoring::sound_vectors(
                    vectors@,
                    old(self).next_len() as nat,
                    expected,
                );
                match result {
                    Ok(_) => sound && final(self).vectors@ == old(self).vectors@ + vectors@,
                    Err(e) => {
                        &&& !sound
                        &&& e@ == "invalid BGE classification vectors"@
                        &&& final(self).vectors@ == old(self).vectors@
                    },
                }
            }),
    {
        let left: usize = self.rows.len() - self.vectors.len();
        let size: usize = if left < self.batch {
            left
        } else {
            self.batch
        };
        let expected: Option<usize> = if self.vectors.len() > 0 {
            Some(self.vectors[0].len())
        } else {
            None
        };
        match validate_vectors(&vectors, size, expected) {
            Ok(_) => {},
            Err(e) => {
                return Err(e);
            },
        }
        let ghost before = self.vectors@;
        let mut made = vectors;
        self.vectors.append(&mut made);
        proof {
            let all = self.vectors@;
            assert(all =~= before + vectors@);
            assert(vectors@.len() > 0);
            let width = vectors@[0]@.len();
            assert forall|i: int| 0 <= i < all.len() implies (#[trigger] all[i])@.len() == width by {
                if i >= before.len() {
                    assert(all[i] == vectors@[i - before.len()]);
                }
            }
            assert forall|i: int, j: int|
                0 <= i < all.len() && 0 <= j < all[i]@.len() implies ieee::is_finite32(
                #[trigger] all[i]@[j],
            ) by {
                if i >= before.len() {
                    assert(all[i] == vectors@[i - before.len()]);
                    assert(ieee::is_finite32(vectors@[i - before.len()]@[j]));
                } else {
                    assert(ieee::is_finite32(before[i]@[j]));
                }
            }
            assert(all[0]@.len() == width);
        }
        Ok(())
    }
}

/// The anchor is one of a program's own.
pub open spec fn is_local(anchor: Anchor) -> bool {
    text::lowercase_of(anchor.scope@) == "local"@
}

/// The program that an anchor belongs to, as programs are compared.
pub open spec fn owner(anchor: Anchor) -> Seq<char> {
    match anchor.process_name {
        Some(name) => scoring::normalized(name@),
        None => scoring::normalized(""@),
    }
}

fn anchor_is_local(anchor: &Anchor) -> (result: bool)
    ensures
        result == is_local(*anchor),
{
    let scope = text::to_lowercase(&anchor.scope);
    text::same(&scope, "local")
}

fn anchor_owner(anchor: &Anchor) -> (result: String)
    ensures
        result@ == owner(*anchor),
{
    match &anchor.process_name {
        Some(name) => normalize_process(name),
        None => normalize_process(""),
    }
}

/// The anchor is compared in this channel: that of the program's own anchors,
/// or that of all the others.
pub open spec fn eligible(anchor: Anchor, process: Seq<char>, local: bool) -> bool {
    &&& is_local(anchor) == local
    &&& local ==> process.len() > 0 && owner(anchor) == process
}

/// Where, among the winners, the one of this category is.
pub open spec fn winner_place(rows: Seq<IndexedAnchor>, winners: Seq<int>, category: Seq<char>) -> int
    decreases winners.len(),
{
    if winners.len() == 0 || rows[winners[0]].category@ == category {
        0
    } else {
        1 + winner_place(rows, winners.drop_first(), category)
    }
}

/// The winners with one more row taken in.
pub open spec fn next_winners(
    rows: Seq<IndexedAnchor>,
    cosines: Seq<u64>,
    process: Seq<char>,
    local: bool,
    winners: Seq<int>,
    k: int,
) -> Seq<int> {
    let at = winner_place(rows, winners, rows[k].category@);
    if !eligible(rows[k].anchor, process, local) || ieee::below(
        cosines[k],
        0x3FD3_3333_3333_3333,
    ) {
        winners
    } else if at >= winners.len() {
        winners.push(k)
    } else if ieee::below(cosines[winners[at]], cosines[k]) {
        winners.update(at, k)
    } else {
        winners
    }
}

/// For each category, in the order in which they are first found, the first
/// anchor with the largest cosine that is not below 0.3.
pub open spec fn winners_of(
    rows: Seq<IndexedAnchor>,
    cosines: Seq<u64>,
    process: Seq<char>,
    local: bool,
    n: nat,
) -> Seq<int>
    decreases n,
{
    if n == 0 {
        Seq::empty()
    } else {
        next_winners(
            rows,
            cosines,
            process,
            local,
            winners_of(rows, cosines, process, local, (n - 1) as nat),
            n - 1,
        )
    }
}

/// Places as whole numbers.
pub open spec fn as_ints(places: Seq<usize>) -> Seq<int> {
    places.map_values(|p: usize| p as int)
}

proof fn lemma_winner_place(rows: Seq<IndexedAnchor>, winners: Seq<int>, category: Seq<char>, at: int)
    requires
        0 <= at <= winners.len(),
        forall|i: int| 0 <= i < at ==> rows[#[trigger] winners[i]].category@ != category,
        at < winners.len() ==> rows[winners[at]].category@ == category,
    ensures
        winner_place(rows, winners, category) == at,
    decreases at,
{
    if at > 0 {
        let rest = winners.drop_first();
        assert(rows[winners[0]].category@ != category);
        assert forall|i: int| 0 <= i < at - 1 implies rows[#[trigger] rest[i]].category@ != category by {
            assert(rest[i] == winners[i + 1]);
        }
        if at < winners.len() {
            assert(rest[at - 1] == winners[at]);
        }
        lemma_winner_place(rows, rest, category, at - 1);
    }
}

fn find_winner(rows: &Vec<IndexedAnchor>, winners: &Vec<usize>, category: &str) -> (result: usize)
    requires
        forall|i: int| 0 <= i < winners@.len() ==> (#[trigger] winners@[i]) < rows@.len(),
    ensures
        result == winner_place(rows@, as_ints(winners@), category@),
        result <= winners@.len(),
{
    let mut at: usize = 0;
    while at < winners.len() && !text::same(&rows[winners[at]].category, category)
        invariant
            at <= winners@.len(),
            forall|i: int| 0 <= i < winners@.len() ==> (#[trigger] winners@[i]) < rows@.len(),
            forall|i: int|
                0 <= i < at ==> rows@[(#[trigger] winners@[i]) as int].category@ != category@,
        decreases winners@.len() - at,
    {
        at = at + 1;
    }
    proof {
        let all = as_ints(winners@);
        assert forall|i: int| 0 <= i < at implies rows@[#[trigger] all[i]].category@ != category@ by {
            assert(rows@[winners@[i] as int].category@ != category@);
        }
        lemma_winner_place(rows@, all, category@, at as int);
    }
    at
}

/// For each category the anchor that speaks for it best, by the cosines of all
/// anchors.
pub fn winners(rows: &Vec<IndexedAnchor>, cosines: &Vec<u64>, process: &str, local: bool) -> (result:
    Vec<usize>)
    requires
        cosines@.len() == rows@.len(),
    ensures
        as_ints(result@) == winners_of(
            rows@,
            cosines@,
            scoring::normalized(process@),
            local,
            rows@.len(),
        ),
        forall|i: int| 0 <= i < result@.len() ==> (#[trigger] result@[i]) < rows@.len(),
{
    let normal = normalize_process(process);
    let named = text::chars_of(&normal).len() > 0;
    let mut found: Vec<usize> = Vec::new();
    let mut k: usize = 0;
    assert(as_ints(found@) =~= Seq::<int>::empty());
    while k < rows.len()
        invariant
            k <= rows@.len(),
            cosines@.len() == rows@.len(),
            normal@ == scoring::normalized(process@),
            named == (normal@.len() > 0),
            as_ints(found@) == winners_of(rows@, cosines@, normal@, local, k as nat),
            forall|i: int| 0 <= i < found@.len() ==> (#[trigger] found@[i]) < rows@.len(),
        decreases rows@.len() - k,
    {
        let ghost before = as_ints(found@);
        let own = anchor_is_local(&rows[k].anchor);
        let mut taken = own == local;
        if taken && local {
            let name = anchor_owner(&rows[k].anchor);
            taken = named && text::same(&name, &normal);
        }
        if taken && !ieee::less(cosines[k], 0x3FD3_3333_3333_3333) {
            let at: usize = find_winner(rows, &found, &rows[k].category);
            if at >= found.len() {
                found.push(k);
                assert(as_ints(found@) =~= before.push(k as int));
            } else {
                assert(before[at as int] == found@[at as int]);
                if ieee::less(cosines[found[at]], cosines[k]) {
                    found.set(at, k);
                    assert(as_ints(found@) =~= before.update(at as int, k as int));
                }
            }
        }
        k = k + 1;
    }
    found
}

/// A category is won once at most.
pub open spec fn won_once(rows: Seq<IndexedAnchor>, winners: Seq<int>) -> bool {
    forall|i: int, j: int|
        0 <= i < j < winners.len() ==> rows[#[trigger] winners[i]].category@
            != rows[#[trigger] winners[j]].category@
}

proof fn lemma_winner_place_found(rows: Seq<IndexedAnchor>, winners: Seq<int>, category: Seq<char>)
    ensures
        0 <= winner_place(rows, winners, category) <= winners.len(),
        forall|i: int|
            0 <= i < winner_place(rows, winners, category) ==> rows[#[trigger] winners[i]].category@
                != category,
        winner_place(rows, winners, category) < winners.len() ==> rows[winners[winner_place(
            rows,
            winners,
            category,
        )]].category@ == category,
    decreases winners.len(),
{
    if winners.len() > 0 && rows[winners[0]].category@ != category {
        let rest = winners.drop_first();
        lemma_winner_place_found(rows, rest, category);
        assert forall|i: int|
            0 <= i < winner_place(rows, winners, category) implies rows[#[trigger] winners[i]].category@
            != category by {
            if i > 0 {
                assert(rest[i - 1] == winners[i]);
            }
        }
        if winner_place(rows, winners, category) < winners.len() {
            assert(rest[winner_place(rows, rest, category)] == winners[winner_place(
                rows,
                winners,
                category,
            )]);
        }
    }
}

/// Every winner is an anchor of the channel whose cosine is not below 0.3, and
/// no category is won twice.
pub proof fn law_winners(
    rows: Seq<IndexedAnchor>,
    cosines: Seq<u64>,
    process: Seq<char>,
    local: bool,
    n: nat,
)
    requires
        n <= rows.len(),
    ensures
        won_once(rows, winners_of(rows, cosines, process, local, n)),
        forall|i: int|
            0 <= i < winners_of(rows, cosines, process, local, n).len() ==> {
                let k = #[trigger] winners_of(rows, cosines, process, local, n)[i];
                &&& 0 <= k < n
                &&& eligible(rows[k].anchor, process, local)
                &&& !ieee::below(cosines[k], 0x3FD3_3333_3333_3333)
            },
    decreases n,
{
    if n > 0 {
        let k = n - 1;
        law_winners(rows, cosines, process, local, k as nat);
        let before = winners_of(rows, cosines, process, local, k as nat);
        let after = winners_of(rows, cosines, process, local, n);
        let at = winner_place(rows, before, rows[k].category@);
        lemma_winner_place_found(rows, before, rows[k].category@);
        assert forall|i: int, j: int| 0 <= i < j < after.len() implies rows[#[trigger] after[i]].category@
            != rows[#[trigger] after[j]].category@ by {
            if i < before.len() && j < before.len() {
                assert(rows[before[i]].category@ != rows[before[j]].category@);
            } else if j == before.len() {
                assert(rows[before[i]].category@ != rows[k].category@);
            }
        }
        assert forall|i: int| 0 <= i < after.len() implies {
            let w = #[trigger] after[i];
            &&& 0 <= w < n
            &&& eligible(rows[w].anchor, process, local)
            &&& !ieee::below(cosines[w], 0x3FD3_3333_3333_3333)
        } by {
            if i < before.len() {
                assert(before[i] < k);
            }
        }
    }
}

/// The anchor that wins its category is not beaten by any other that could:
/// none of them has a larger cosine, and of those with the same the first wins.
pub proof fn law_winner_is_not_beaten(
    rows: Seq<IndexedAnchor>,
    cosines: Seq<u64>,
    process: Seq<char>,
    local: bool,
    n: nat,
    r: int,
)
    requires
        n <= rows.len(),
        0 <= r < n,
        eligible(rows[r].anchor, process, local),
        !ieee::below(cosines[r], 0x3FD3_3333_3333_3333),
    ensures
        ({
            let winners = winners_of(rows, cosines, process, local, n);
            let at = winner_place(rows, winners, rows[r].category@);
            &&& 0 <= at < winners.len()
            &&& rows[winners[at]].category@ == rows[r].category@
            &&& !ieee::below(cosines[winners[at]], cosines[r])
            &&& !ieee::is_nan(cosines[r]) && !ieee::below(cosines[r], cosines[winners[at]])
                ==> winners[at] <= r
        }),
    decreases n,
{
    let k = n - 1;
    let before = winners_of(rows, cosines, process, local, k as nat);
    let after = winners_of(rows, cosines, process, local, n);
    law_winners(rows, cosines, process, local, k as nat);
    let place = winner_place(rows, before, rows[k].category@);
    lemma_winner_place_found(rows, before, rows[k].category@);
    let category = rows[r].category@;
    let was = winner_place(rows, before, category);
    lemma_winner_place_found(rows, before, category);
    if r < k {
        law_winner_is_not_beaten(rows, cosines, process, local, k as nat, r);
    }
    // Where the winner of the category is now.
    let at = if r == k {
        place
    } else {
        was
    };
    assert(at < after.len());
    assert forall|i: int| 0 <= i < at implies rows[#[trigger] after[i]].category@ != category by {
        assert(rows[before[i]].category@ != category);
    }
    lemma_winner_place(rows, after, category, at);
}

/// Scores with those of the winners put in.
pub open spec fn won_scores(rows: Seq<IndexedAnchor>, winners: Seq<int>, values: Seq<u64>, n: nat) -> Seq<
    (Seq<char>, u64),
>
    decreases n,
{
    if n == 0 {
        Seq::empty()
    } else {
        anchors::put(
            won_scores(rows, winners, values, (n - 1) as nat),
            rows[winners[n - 1]].category@,
            values[n - 1],
        )
    }
}

/// Scores with a zero for each of the categories that has none.
pub open spec fn with_zeros(
    scores: Seq<(Seq<char>, u64)>,
    list: Seq<(Seq<char>, Seq<Anchor>)>,
    n: nat,
) -> Seq<(Seq<char>, u64)>
    decreases n,
{
    if n == 0 {
        scores
    } else {
        let before = with_zeros(scores, list, (n - 1) as nat);
        if anchors::listed(before, list[n - 1].0) {
            before
        } else {
            before.push((list[n - 1].0, 0))
        }
    }
}

/// How many categories have a score above zero.
pub open spec fn speaking(
    list: Seq<(Seq<char>, Seq<Anchor>)>,
    scores: Seq<(Seq<char>, u64)>,
    n: nat,
) -> Seq<Seq<char>>
    decreases n,
{
    if n == 0 {
        Seq::empty()
    } else {
        let before = speaking(list, scores, (n - 1) as nat);
        if ieee::below(0, scoring::score_or_zero(scores, list[n - 1].0)) {
            before.push(list[n - 1].0)
        } else {
            before
        }
    }
}

/// What feedback did.
#[derive(Debug, Clone, Copy, PartialEq, Eq, Structural)]
pub struct LearnResult {
    pub title_local_added: bool,
    pub title_global_added: bool,
    pub title_local_dedup: bool,
    pub title_global_dedup: bool,
    pub ocr_local_added: bool,
    pub ocr_global_added: bool,
    pub ocr_local_dedup: bool,
    pub ocr_global_dedup: bool,
    pub negative_removed: bool,
}

/// Cosines that feedback goes by: those of all anchors with the title, with the
/// title without the name of the browser, and with the text of the screenshot;
/// and that of the title with this text.
#[derive(Debug)]
pub struct LearnCosines {
    pub title: Vec<u64>,
    pub clean_title: Vec<u64>,
    pub snippet: Vec<u64>,
    pub title_to_snippet: u64,
}

/// The anchor is taken back: it has the text, where one is given, and the
/// scope, and belongs to the program where the scope is its own.
pub open spec fn taken_back(
    anchor: AnchorModel,
    text: Option<Seq<char>>,
    scope: Seq<char>,
    process: Seq<char>,
) -> bool {
    &&& text is Some ==> anchor.text == text->0
    &&& text::lowercase_of(anchor.scope) == scope
    &&& scope == "local"@ ==> (match anchor.process_name {
        Some(name) => scoring::normalized(name),
        None => scoring::normalized(""@),
    }) == scoring::normalized(process)
}

/// The anchors that are not taken back.
pub open spec fn kept(
    rows: Seq<AnchorModel>,
    text: Option<Seq<char>>,
    scope: Seq<char>,
    process: Seq<char>,
) -> Seq<AnchorModel>
    decreases rows.len(),
{
    if rows.len() == 0 {
        Seq::empty()
    } else {
        let rest = kept(rows.drop_first(), text, scope, process);
        if taken_back(rows[0], text, scope, process) {
            rest
        } else {
            seq![rows[0]] + rest
        }
    }
}

/// The anchors after some of a category were taken back. A category that has
/// none left goes.
pub open spec fn after_removal(
    list: Seq<(Seq<char>, Seq<AnchorModel>)>,
    category: Seq<char>,
    text: Option<Seq<char>>,
    scope: Seq<char>,
    process: Seq<char>,
) -> Seq<(Seq<char>, Seq<AnchorModel>)> {
    if !anchors::listed(list, category) {
        list
    } else {
        let left = kept(anchors::rows_under(list, category), text, scope, process);
        if left.len() == 0 {
            anchors::without(list, category)
        } else {
            anchors::put(list, category, left)
        }
    }
}

/// How many anchors of a category are taken back.
pub open spec fn removed_count(
    list: Seq<(Seq<char>, Seq<AnchorModel>)>,
    category: Seq<char>,
    text: Option<Seq<char>>,
    scope: Seq<char>,
    process: Seq<char>,
) -> int {
    anchors::rows_under(list, category).len() - kept(
        anchors::rows_under(list, category),
        text,
        scope,
        process,
    ).len()
}

fn is_taken_back(anchor: &Anchor, wanted: Option<&str>, scope: &str, process: &str) -> (result: bool)
    ensures
        result == taken_back(
            anchor.model(),
            match wanted {
                Some(t) => Some(t@),
                None => None,
            },
            scope@,
            process@,
        ),
{
    match wanted {
        Some(t) => {
            if !text::same(&anchor.text, t) {
                return false;
            }
        },
        None => {},
    }
    let anchor_scope = text::to_lowercase(&anchor.scope);
    if !text::same(&anchor_scope, scope) {
        return false;
    }
    if text::same(scope, "local") {
        let name = anchor_owner(anchor);
        let normal = normalize_process(process);
        return text::same(&name, &normal);
    }
    true
}

/// Splits off the anchors that are taken back.
fn keep_rows(rows: Vec<Anchor>, wanted: Option<&str>, scope: &str, process: &str) -> (result: Vec<
    Anchor,
>)
    ensures
        anchors::models(result@) == kept(
            anchors::models(rows@),
            match wanted {
                Some(t) => Some(t@),
                None => None,
            },
            scope@,
            process@,
        ),
        result@.len() <= rows@.len(),
{
    let ghost sought = match wanted {
        Some(t) => Some(t@),
        None => None,
    };
    let ghost all = kept(anchors::models(rows@), sought, scope@, process@);
    let total: usize = rows.len();
    let mut left = rows;
    let mut result: Vec<Anchor> = Vec::new();
    assert(anchors::models(result@) + all =~= all);
    while left.len() > 0
        invariant
            result@.len() + left@.len() <= total,
            sought == match wanted {
                Some(t) => Some(t@),
                None => None,
            },
            anchors::models(result@) + kept(anchors::models(left@), sought, scope@, process@)
                == all,
        decreases left@.len(),
    {
        let ghost before = anchors::models(result@);
        let ghost models = anchors::models(left@);
        let first = left.remove(0);
        proof {
            assert(anchors::models(left@) =~= models.drop_first());
        }
        let ghost rest = kept(anchors::models(left@), sought, scope@, process@);
        if !is_taken_back(&first, wanted, scope, process) {
            result.push(first);
            proof {
                assert(anchors::models(result@) =~= before.push(first.model()));
                assert(before.push(first.model()) + rest =~= before + (seq![first.model()] + rest));
            }
        }
    }
    proof {
        assert(anchors::models(left@) =~= Seq::<AnchorModel>::empty());
        assert(anchors::models(result@) + Seq::<AnchorModel>::empty() =~= anchors::models(result@));
    }
    result
}

/// Takes anchors of a category back, and tells how many.
fn remove_rows(
    list: &mut Anchors,
    category: &str,
    wanted: Option<&str>,
    scope: &str,
    process: &str,
) -> (result: usize)
    ensures
        ({
            let sought = match wanted {
                Some(t) => Some(t@),
                None => None,
            };
            let before = anchors::modelled(anchors::entries(*old(list)));
            &&& anchors::modelled(anchors::entries(*final(list))) == after_removal(
                before,
                category@,
                sought,
                scope@,
                process@,
            )
            &&& result == removed_count(before, category@, sought, scope@, process@)
        }),
{
    let ghost sought = match wanted {
        Some(t) => Some(t@),
        None => None,
    };
    let ghost entries = anchors::entries(*list);
    let ghost before = anchors::modelled(entries);
    proof {
        anchors::lemma_modelled(entries, category@, Seq::<Anchor>::empty());
    }
    if !has_category(list, category) {
        return 0;
    }
    let rows = take_rows(list, category);
    let count: usize = rows.len();
    let left = keep_rows(rows, wanted, scope, process);
    let removed: usize = count - left.len();
    proof {
        assert(anchors::models(left@).len() == left@.len());
        assert(anchors::models(rows@) == anchors::rows_under(before, category@));
        anchors::lemma_place(entries, category@);
        anchors::law_put_is_found(entries, category@, Seq::<Anchor>::empty(), category@);
        let emptied = anchors::put(entries, category@, Seq::<Anchor>::empty());
        assert forall|i: int| 0 <= i < anchors::place(entries, category@) implies (
        #[trigger] emptied[i]).0 != category@ by {
            assert(entries[i].0 != category@);
        }
        anchors::lemma_place_is(emptied, category@, anchors::place(entries, category@));
        assert(anchors::without(emptied, category@) =~= anchors::without(entries, category@));
        anchors::lemma_put_twice(entries, category@, Seq::<Anchor>::empty(), left@);
        anchors::lemma_modelled(entries, category@, left@);
    }
    if left.len() == 0 {
        drop_category(list, category);
    } else {
        put_rows(list, category.to_owned(), left);
    }
    removed
}

/// The anchors with one more under a category.
pub open spec fn with_anchor(
    list: Seq<(Seq<char>, Seq<AnchorModel>)>,
    category: Seq<char>,
    anchor: AnchorModel,
) -> Seq<(Seq<char>, Seq<AnchorModel>)> {
    anchors::put(list, category, anchors::rows_under(list, category).push(anchor))
}

fn add_anchor(list: &mut Anchors, category: &str, anchor: Anchor)
    ensures
        anchors::modelled(anchors::entries(*final(list))) == with_anchor(
            anchors::modelled(anchors::entries(*old(list))),
            category@,
            anchor.model(),
        ),
{
    let ghost entries = anchors::entries(*list);
    let mut rows = take_rows(list, category);
    let ghost before = rows@;
    rows.push(anchor);
    proof {
        anchors::lemma_put_twice(entries, category@, Seq::<Anchor>::empty(), rows@);
        anchors::lemma_modelled(entries, category@, rows@);
        assert(anchors::models(rows@) =~= anchors::models(before).push(anchor.model()));
    }
    put_rows(list, category.to_owned(), rows);
}

fn copy_rows(rows: &Vec<Anchor>) -> (result: Vec<Anchor>)
    ensures
        anchors::models(result@) == anchors::models(rows@),
{
    let mut copies: Vec<Anchor> = Vec::new();
    let mut i: usize = 0;
    while i < rows.len()
        invariant
            i <= rows@.len(),
            copies@.len() == i,
            forall|j: int| 0 <= j < i ==> (#[trigger] copies@[j]).model() == rows@[j].model(),
        decreases rows@.len() - i,
    {
        copies.push(rows[i].copy());
        i = i + 1;
    }
    assert(anchors::models(copies@) =~= anchors::models(rows@));
    copies
}

fn copy_anchors(list: &Anchors) -> (result: Anchors)
    ensures
        anchors::modelled(anchors::entries(result)) == anchors::modelled(anchors::entries(*list)),
{
    let ghost all = anchors::modelled(anchors::entries(*list));
    let count: usize = category_count(list);
    let mut copies = anchors::no_anchors();
    let mut i: usize = 0;
    assert(anchors::modelled(anchors::entries(copies)) =~= all.take(0));
    while i < count
        invariant
            i <= count,
            count == anchors::entries(*list).len(),
            all == anchors::modelled(anchors::entries(*list)),
            anchors::modelled(anchors::entries(copies)) == all.take(i as int),
        decreases count - i,
    {
        match category_at(list, i) {
            Some((category, rows)) => {
                let copied = copy_rows(rows);
                proof {
                    let before = all.take(i as int);
                    anchors::lemma_modelled(
                        anchors::entries(*list),
                        category@,
                        Seq::<Anchor>::empty(),
                    );
                    anchors::lemma_place(all, category@);
                    assert forall|j: int| 0 <= j < before.len() implies (#[trigger] before[j]).0
                        != category@ by {
                        assert(all[j].0 != category@);
                    }
                    anchors::lemma_place_is(before, category@, before.len() as int);
                    anchors::lemma_modelled(anchors::entries(copies), category@, copied@);
                    assert(before.push((category@, anchors::models(copied@))) =~= all.take(i + 1));
                }
                put_rows(&mut copies, category.clone(), copied);
            },
            None => {},
        }
        i = i + 1;
    }
    assert(all.take(count as int) =~= all);
    copies
}

/// Some anchor of a category says nearly the same: its cosine is above 0.95.
pub open spec fn said_already(
    rows: Seq<IndexedAnchor>,
    category: Seq<char>,
    cosines: Seq<u64>,
    local: bool,
    process: Seq<char>,
) -> bool {
    exists|i: int|
        0 <= i < rows.len() && (#[trigger] rows[i]).category@ == category && is_local(
            rows[i].anchor,
        ) == local && (!local || owner(rows[i].anchor) == scoring::normalized(process))
            && ieee::below(0x3FEE_6666_6666_6666, cosines[i])
}

/// Some anchor of a category says nearly the same.
pub fn duplicate(
    rows: &Vec<IndexedAnchor>,
    category: &str,
    cosines: &Vec<u64>,
    local: bool,
    process: &str,
) -> (result: bool)
    requires
        cosines@.len() == rows@.len(),
    ensures
        result == said_already(rows@, category@, cosines@, local, process@),
{
    let normal = normalize_process(process);
    let mut i: usize = 0;
    while i < rows.len()
        invariant
            i <= rows@.len(),
            cosines@.len() == rows@.len(),
            normal@ == scoring::normalized(process@),
            forall|j: int|
                0 <= j < i ==> !((#[trigger] rows@[j]).category@ == category@ && is_local(
                    rows@[j].anchor,
                ) == local && (!local || owner(rows@[j].anchor) == normal@) && ieee::below(
                    0x3FEE_6666_6666_6666,
                    cosines@[j],
                )),
        decreases rows@.len() - i,
    {
        if text::same(&rows[i].category, category) {
            let own = anchor_is_local(&rows[i].anchor);
            if own == local {
                let mut same_owner = true;
                if local {
                    let name = anchor_owner(&rows[i].anchor);
                    same_owner = text::same(&name, &normal);
                }
                if same_owner && ieee::less(0x3FEE_6666_6666_6666, cosines[i]) {
                    return true;
                }
            }
        }
        i = i + 1;
    }
    false
}

/// What feedback does to the anchors, and what it tells of it.
pub struct Lesson {
    pub list: Seq<(Seq<char>, Seq<AnchorModel>)>,
    pub result: LearnResult,
}

/// Nothing was done.
pub open spec fn nothing_learned() -> LearnResult {
    LearnResult {
        title_local_added: false,
        title_global_added: false,
        title_local_dedup: false,
        title_global_dedup: false,
        ocr_local_added: false,
        ocr_global_added: false,
        ocr_local_dedup: false,
        ocr_global_dedup: false,
        negative_removed: false,
    }
}

/// The title is taken back from the category that it was under: first from the
/// program's own anchors, and if it was not there, from the others.
pub open spec fn unlearned(
    list: Seq<(Seq<char>, Seq<AnchorModel>)>,
    category: Seq<char>,
    title: Seq<char>,
    process: Seq<char>,
    old_category: Option<Seq<char>>,
) -> Lesson {
    match old_category {
        Some(old_name) => if old_name != category && old_name != UNCATEGORIZED@ {
            let first = if process.len() > 0 {
                after_removal(list, old_name, Some(title), "local"@, process)
            } else {
                list
            };
            let found = process.len() > 0 && removed_count(
                list,
                old_name,
                Some(title),
                "local"@,
                process,
            ) > 0;
            if found {
                Lesson {
                    list: first,
                    result: LearnResult { negative_removed: true, ..nothing_learned() },
                }
            } else {
                Lesson {
                    list: after_removal(first, old_name, Some(title), "global"@, process),
                    result: LearnResult {
                        negative_removed: removed_count(
                            first,
                            old_name,
                            Some(title),
                            "global"@,
                            process,
                        ) > 0,
                        ..nothing_learned()
                    },
                }
            }
        } else {
            Lesson { list, result: nothing_learned() }
        },
        None => Lesson { list, result: nothing_learned() },
    }
}

/// The title is learned as one of the program's own anchors.
pub open spec fn title_learned(
    before: Lesson,
    category: Seq<char>,
    title: Seq<char>,
    process: Seq<char>,
    known: bool,
    now: Seq<char>,
) -> Lesson {
    if process.len() == 0 {
        before
    } else if known {
        Lesson { result: LearnResult { title_local_dedup: true, ..before.result }, ..before }
    } else {
        Lesson {
            list: with_anchor(
                before.list,
                category,
                anchors::made(
                    title,
                    "user_feedback"@,
                    WEIGHT_TWO,
                    "local"@,
                    Some(process),
                    now,
                ),
            ),
            result: LearnResult { title_local_added: true, ..before.result },
        }
    }
}

/// The title without the name of the browser is learned for all programs, if it
/// says enough.
pub open spec fn clean_title_learned(
    before: Lesson,
    category: Seq<char>,
    clean_title: Seq<char>,
    known: bool,
    now: Seq<char>,
) -> Lesson {
    if !scoring::says_enough(clean_title) {
        before
    } else if known {
        Lesson { result: LearnResult { title_global_dedup: true, ..before.result }, ..before }
    } else {
        Lesson {
            list: with_anchor(
                before.list,
                category,
                anchors::made(clean_title, "user_feedback"@, WEIGHT_TWO, "global"@, None, now),
            ),
            result: LearnResult { title_global_added: true, ..before.result },
        }
    }
}

/// The text of the screenshot is learned as one of the program's own anchors,
/// if it says something else than the title.
pub open spec fn snippet_learned(
    before: Lesson,
    category: Seq<char>,
    snippet: Option<Seq<char>>,
    process: Seq<char>,
    differs: bool,
    known: bool,
    now: Seq<char>,
) -> Lesson {
    if snippet is None || !differs || process.len() == 0 {
        before
    } else if known {
        Lesson { result: LearnResult { ocr_local_dedup: true, ..before.result }, ..before }
    } else {
        Lesson {
            list: with_anchor(
                before.list,
                category,
                anchors::made(
                    snippet->0,
                    "ocr_feedback"@,
                    WEIGHT_ONE_AND_A_HALF,
                    "local"@,
                    Some(process),
                    now,
                ),
            ),
            result: LearnResult { ocr_local_added: true, ..before.result },
        }
    }
}

/// What feedback on a screenshot comes to.
pub open spec fn lesson_of(
    list: Seq<(Seq<char>, Seq<AnchorModel>)>,
    rows: Seq<IndexedAnchor>,
    category: Seq<char>,
    input: Input,
    old_category: Option<Seq<char>>,
    cosines: LearnCosines,
    now: Seq<char>,
) -> Lesson {
    let process = text::trimmed(input.process_name@);
    let clean_title = scoring::stripped(input.title@, process);
    let first = unlearned(list, category, input.title@, process, old_category);
    let second = title_learned(
        first,
        category,
        input.title@,
        process,
        said_already(rows, category, cosines.title@, true, process),
        now,
    );
    let third = clean_title_learned(
        second,
        category,
        clean_title,
        said_already(rows, category, cosines.clean_title@, false, ""@),
        now,
    );
    snippet_learned(
        third,
        category,
        scoring::feedback_snippet(input.ocr_text@),
        process,
        ieee::below(cosines.title_to_snippet, 0x3FE6_6666_6666_6666),
        said_already(rows, category, cosines.snippet@, true, process),
        now,
    )
}

impl Classifier {
    /// What the anchors say, by category.
    pub open spec fn list(&self) -> Seq<(Seq<char>, Seq<AnchorModel>)> {
        anchors::modelled(anchors::entries(self.anchors))
    }

    /// Takes anchors on, if they are sound.
    pub fn new(anchors: Anchors, item_bytes: usize) -> (result: Result<Self, String>)
        ensures
            match result {
                Ok(classifier) => {
                    &&& classifier.anchors == anchors
                    &&& classifier.index is None
                    &&& anchors::fault(classifier.list(), item_bytes) is None
                },
                Err(e) => anchors::fault(
                    anchors::modelled(anchors::entries(anchors)),
                    item_bytes,
                ) == Some(e@),
            },
    {
        match validate_anchors(&anchors, item_bytes) {
            Ok(_) => Ok(Classifier { anchors, index: None }),
            Err(e) => Err(e),
        }
    }

    /// Begins to make the vectors of all anchors with texts, so many at a time.
    pub fn begin_index(&self, batch: usize) -> (result: IndexBuild)
        requires
            batch > 0,
        ensures
            result.wf(),
            result.batch == batch,
            result.vectors@.len() == 0,
            row_views(result.rows@) == flat(self.list()),
    {
        let ghost list = self.list();
        let count: usize = category_count(&self.anchors);
        let mut rows: Vec<(String, Anchor)> = Vec::new();
        let mut i: usize = 0;
        assert(row_views(rows@) =~= Seq::<(Seq<char>, AnchorModel)>::empty());
        while i < count
            invariant
                i <= count,
                list == self.list(),
                count == list.len(),
                row_views(rows@) == flat(list.take(i as int)),
            decreases count - i,
        {
            proof {
                assert(list.take(i + 1).drop_last() =~= list.take(i as int));
                assert(list.take(i + 1).last() == list[i as int]);
            }
            match category_at(&self.anchors, i) {
                Some((category, anchors_here)) => {
                    let ghost before = row_views(rows@);
                    let ghost models = anchors::models(anchors_here@);
                    let mut j: usize = 0;
                    assert(before + flat_rows(category@, models.take(0)) =~= before);
                    while j < anchors_here.len()
                        invariant
                            j <= anchors_here@.len(),
                            models == anchors::models(anchors_here@),
                            row_views(rows@) == before + flat_rows(
                                category@,
                                models.take(j as int),
                            ),
                        decreases anchors_here@.len() - j,
                    {
                        proof {
                            assert(models.take(j + 1).drop_last() =~= models.take(j as int));
                            assert(models.take(j + 1).last() == anchors_here@[j as int].model());
                        }
                        let ghost so_far = row_views(rows@);
                        let trimmed = text::trim(&anchors_here[j].text);
                        if text::chars_of(&trimmed).len() > 0 {
                            rows.push((category.clone(), anchors_here[j].copy()));
                            proof {
                                let added = (category@, anchors_here@[j as int].model());
                                assert(row_views(rows@) =~= so_far.push(added));
                                assert(so_far.push(added) =~= before + flat_rows(
                                    category@,
                                    models.take(j + 1),
                                ));
                            }
                        }
                        j = j + 1;
                    }
                    assert(models.take(models.len() as int) =~= models);
                },
                None => {},
            }
            i = i + 1;
        }
        assert(list.take(count as int) =~= list);
        let vectors: Vec<Vec<u32>> = Vec::new();
        IndexBuild { rows, vectors, batch }
    }

    /// Takes the vectors on once all were made.
    pub fn finish_index(&mut self, build: IndexBuild)
        requires
            build.wf(),
            build.vectors@.len() == build.rows@.len(),
        ensures
            final(self).anchors == old(self).anchors,
            match final(self).index {
                Some(rows) => {
                    &&& rows@.len() == build.rows@.len()
                    &&& forall|i: int|
                        0 <= i < rows@.len() ==> (#[trigger] rows@[i]).category == build.rows@[i].0
                            && rows@[i].anchor == build.rows@[i].1 && rows@[i].vector
                            == build.vectors@[i]
                },
                None => false,
            },
    {
        let ghost all_rows = build.rows@;
        let ghost all_vectors = build.vectors@;
        let mut rows = build.rows;
        let mut vectors = build.vectors;
        let mut index: Vec<IndexedAnchor> = Vec::new();
        while rows.len() > 0
            invariant
                rows@.len() == vectors@.len(),
                index@.len() + rows@.len() == all_rows.len(),
                all_rows.len() == all_vectors.len(),
                rows@ == all_rows.skip(index@.len() as int),
                vectors@ == all_vectors.skip(index@.len() as int),
                forall|i: int|
                    0 <= i < index@.len() ==> (#[trigger] index@[i]).category == all_rows[i].0
                        && index@[i].anchor == all_rows[i].1 && index@[i].vector == all_vectors[i],
            decreases rows@.len(),
        {
            let ghost done = index@.len() as int;
            let (category, anchor) = rows.remove(0);
            let vector = vectors.remove(0);
            assert(rows@ =~= all_rows.skip(done + 1));
            assert(vectors@ =~= all_vectors.skip(done + 1));
            index.push(IndexedAnchor { category, anchor, vector });
        }
        self.index = Some(index);
    }

    /// The one vector that was made of a text, if it is sound.
    pub fn check_vector(&self, vectors: Vec<Vec<u32>>) -> (result: Result<Vec<u32>, String>)
        ensures
            ({
                let expected = match self.index {
                    Some(rows) => if rows@.len() > 0 {
                        Some(rows@[0].vector.len())
                    } else {
                        None
                    },
                    None => None,
                };
                let sound = scoring::sound_vectors(vectors@, 1, expected);
                match result {
                    Ok(vector) => sound && vector == vectors@[0],
                    Err(e) => !sound && e@ == "invalid BGE classification vectors"@,
                }
            }),
    {
        let expected: Option<usize> = match &self.index {
            Some(rows) => if rows.len() > 0 {
                Some(rows[0].vector.len())
            } else {
                None
            },
            None => None,
        };
        match validate_vectors(&vectors, 1, expected) {
            Ok(_) => {
                let mut made = vectors;
                Ok(made.remove(0))
            },
            Err(e) => Err(e),
        }
    }

    /// The scores of all categories: those of the winners, and zeros.
    pub fn scores(&self, rows: &Vec<IndexedAnchor>, winners: &Vec<usize>, values: &Vec<u64>) -> (result:
        Scores)
        requires
            values@.len() == winners@.len(),
            forall|i: int| 0 <= i < winners@.len() ==> (#[trigger] winners@[i]) < rows@.len(),
        ensures
            scoring::scored(result) == with_zeros(
                won_scores(rows@, as_ints(winners@), values@, winners@.len()),
                anchors::entries(self.anchors),
                anchors::entries(self.anchors).len(),
            ),
    {
        let mut found = no_scores();
        let mut i: usize = 0;
        while i < winners.len()
            invariant
                i <= winners@.len(),
                values@.len() == winners@.len(),
                forall|i: int| 0 <= i < winners@.len() ==> (#[trigger] winners@[i]) < rows@.len(),
                scoring::scored(found) == won_scores(
                    rows@,
                    as_ints(winners@),
                    values@,
                    i as nat,
                ),
            decreases winners@.len() - i,
        {
            assert(as_ints(winners@)[i as int] == winners@[i as int]);
            put_score(&mut found, rows[winners[i]].category.clone(), values[i]);
            i = i + 1;
        }
        let ghost won = scoring::scored(found);
        let count: usize = category_count(&self.anchors);
        let mut k: usize = 0;
        while k < count
            invariant
                k <= count,
                count == anchors::entries(self.anchors).len(),
                scoring::scored(found) == with_zeros(
                    won,
                    anchors::entries(self.anchors),
                    k as nat,
                ),
            decreases count - k,
        {
            match category_at(&self.anchors, k) {
                Some((category, _)) => {
                    if score_of(&found, category).is_none() {
                        put_score(&mut found, category.clone(), 0);
                    }
                },
                None => {},
            }
            k = k + 1;
        }
        found
    }

    /// The categories that have a score above zero.
    pub fn speaking_categories(&self, scores: &Scores) -> (result: Vec<String>)
        ensures
            text::texts(result@) == speaking(
                anchors::entries(self.anchors),
                scoring::scored(*scores),
                anchors::entries(self.anchors).len(),
            ),
    {
        let count: usize = category_count(&self.anchors);
        let mut names: Vec<String> = Vec::new();
        let mut i: usize = 0;
        assert(text::texts(names@) =~= Seq::<Seq<char>>::empty());
        while i < count
            invariant
                i <= count,
                count == anchors::entries(self.anchors).len(),
                text::texts(names@) == speaking(
                    anchors::entries(self.anchors),
                    scoring::scored(*scores),
                    i as nat,
                ),
            decreases count - i,
        {
            match category_at(&self.anchors, i) {
                Some((category, _)) => {
                    let ghost before = text::texts(names@);
                    let value: u64 = value_or_zero(scores, category);
                    if ieee::less(0, value) {
                        names.push(category.clone());
                        assert(text::texts(names@) =~= before.push(category@));
                    }
                },
                None => {},
            }
            i = i + 1;
        }
        names
    }

    /// What is blended for each category: the score of all the other anchors,
    /// and that of the program's own.
    pub fn blend_inputs(&self, local: &Scores, global: &Scores) -> (result: Vec<(u64, u64)>)
        ensures
            result@ == anchors::entries(self.anchors).map_values(
                |e: (Seq<char>, Seq<Anchor>)|
                    (
                        scoring::score_or_zero(scoring::scored(*global), e.0),
                        scoring::score_or_zero(scoring::scored(*local), e.0),
                    ),
            ),
    {
        let ghost list = anchors::entries(self.anchors);
        let count: usize = category_count(&self.anchors);
        let mut pairs: Vec<(u64, u64)> = Vec::new();
        let mut i: usize = 0;
        while i < count
            invariant
                i <= count,
                i == pairs@.len(),
                list == anchors::entries(self.anchors),
                count == list.len(),
                forall|j: int|
                    0 <= j < i ==> #[trigger] pairs@[j] == (
                        scoring::score_or_zero(scoring::scored(*global), list[j].0),
                        scoring::score_or_zero(scoring::scored(*local), list[j].0),
                    ),
            decreases count - i,
        {
            match category_at(&self.anchors, i) {
                Some((category, _)) => {
                    let general: u64 = value_or_zero(global, category);
                    let own: u64 = value_or_zero(local, category);
                    pairs.push((general, own));
                },
                None => {
                    pairs.push((0, 0));
                },
            }
            i = i + 1;
        }
        pairs
    }

    /// The blended scores, by category.
    pub fn blended(&self, values: &Vec<u64>) -> (result: Scores)
        requires
            values@.len() == anchors::entries(self.anchors).len(),
        ensures
            scoring::scored(result) == Seq::new(
                values@.len(),
                |i: int| (anchors::entries(self.anchors)[i].0, values@[i]),
            ),
    {
        let ghost list = anchors::entries(self.anchors);
        let ghost all = Seq::new(values@.len(), |i: int| (list[i].0, values@[i]));
        let count: usize = category_count(&self.anchors);
        let mut found = no_scores();
        let mut i: usize = 0;
        assert(all.take(0) =~= Seq::<(Seq<char>, u64)>::empty());
        while i < count
            invariant
                i <= count,
                list == anchors::entries(self.anchors),
                count == list.len(),
                values@.len() == count,
                all == Seq::new(values@.len(), |i: int| (list[i].0, values@[i])),
                scoring::scored(found) == all.take(i as int),
            decreases count - i,
        {
            match category_at(&self.anchors, i) {
                Some((category, _)) => {
                    let ghost before = scoring::scored(found);
                    put_score(&mut found, category.clone(), values[i]);
                    proof {
                        anchors::lemma_place(list, category@);
                        assert forall|j: int| 0 <= j < before.len() implies (
                        #[trigger] before[j]).0 != category@ by {
                            assert(list[j].0 != category@);
                        }
                        anchors::lemma_place_is(before, category@, before.len() as int);
                        assert(scoring::scored(found) =~= all.take(i + 1));
                    }
                },
                None => {},
            }
            i = i + 1;
        }
        assert(all.take(count as int) =~= all);
        found
    }

    /// Learns from feedback on a screenshot. Where the anchors would not be
    /// sound afterwards, nothing changes.
    pub fn learn(
        &mut self,
        category: &str,
        input: &Input,
        old_category: Option<&str>,
        cosines: &LearnCosines,
        now: &str,
        item_bytes: usize,
    ) -> (result: Result<LearnResult, String>)
        requires
            text::trimmed(input.title@).len() > 0 ==> {
                &&& old(self).index is Some
                &&& cosines.title@.len() == old(self).index->0@.len()
                &&& cosines.clean_title@.len() == old(self).index->0@.len()
                &&& cosines.snippet@.len() == old(self).index->0@.len()
            },
        ensures
            ({
                let lesson = lesson_of(
                    old(self).list(),
                    old(self).index->0@,
                    category@,
                    *input,
                    match old_category {
                        Some(name) => Some(name@),
                        None => None,
                    },
                    *cosines,
                    now@,
                );
                if text::trimmed(input.title@).len() == 0 {
                    &&& result matches Ok(r) && r == nothing_learned()
                    &&& *final(self) == *old(self)
                } else {
                    match result {
                        Ok(r) => {
                            &&& anchors::fault(lesson.list, item_bytes) is None
                            &&& r == lesson.result
                            &&& final(self).list() == lesson.list
                            &&& final(self).index is None
                        },
                        Err(e) => {
                            &&& anchors::fault(lesson.list, item_bytes) == Some(e@)
                            &&& *final(self) == *old(self)
                        },
                    }
                }
            }),
    {
        let mut result = LearnResult {
            title_local_added: false,
            title_global_added: false,
            title_local_dedup: false,
            title_global_dedup: false,
            ocr_local_added: false,
            ocr_global_added: false,
            ocr_local_dedup: false,
            ocr_global_dedup: false,
            negative_removed: false,
        };
        let title_trimmed = text::trim(&input.title);
        if text::chars_of(&title_trimmed).len() == 0 {
            return Ok(result);
        }
        let rows = match &self.index {
            Some(rows) => rows,
            None => {
                return Ok(result);
            },
        };
        let mut list = copy_anchors(&self.anchors);
        let process = text::trim(&input.process_name);
        let named = text::chars_of(&process).len() > 0;
        match old_category {
            Some(old_name) => {
                if !text::same(old_name, category) && !text::same(old_name, UNCATEGORIZED) {
                    let mut removed = false;
                    if named {
                        removed = remove_rows(
                            &mut list,
                            old_name,
                            Some(input.title.as_str()),
                            "local",
                            &process,
                        ) > 0;
                    }
                    if !removed {
                        removed = remove_rows(
                            &mut list,
                            old_name,
                            Some(input.title.as_str()),
                            "global",
                            &process,
                        ) > 0;
                    }
                    result.negative_removed = removed;
                }
            },
            None => {},
        }
        let clean_title = strip_app_suffix(&input.title, &process);
        if named {
            if duplicate(rows, category, &cosines.title, true, &process) {
                result.title_local_dedup = true;
            } else {
                let anchor = Anchor::new(
                    input.title.clone(),
                    "user_feedback",
                    WEIGHT_TWO,
                    "local",
                    Some(process.clone()),
                    now,
                );
                add_anchor(&mut list, category, anchor);
                result.title_local_added = true;
            }
        }
        if informative(&clean_title) {
            if duplicate(rows, category, &cosines.clean_title, false, "") {
                result.title_global_dedup = true;
            } else {
                let anchor = Anchor::new(
                    clean_title,
                    "user_feedback",
                    WEIGHT_TWO,
                    "global",
                    None,
                    now,
                );
                add_anchor(&mut list, category, anchor);
                result.title_global_added = true;
            }
        }
        match learned_snippet(&input.ocr_text) {
            Some(snippet) => {
                if ieee::less(cosines.title_to_snippet, 0x3FE6_6666_6666_6666) && named {
                    if duplicate(rows, category, &cosines.snippet, true, &process) {
                        result.ocr_local_dedup = true;
                    } else {
                        let anchor = Anchor::new(
                            snippet,
                            "ocr_feedback",
                            WEIGHT_ONE_AND_A_HALF,
                            "local",
                            Some(process.clone()),
                            now,
                        );
                        add_anchor(&mut list, category, anchor);
                        result.ocr_local_added = true;
                    }
                }
            },
            None => {},
        }
        match validate_anchors(&list, item_bytes) {
            Ok(_) => {
                self.anchors = list;
                self.index = None;
                Ok(result)
            },
            Err(e) => Err(e),
        }
    }

    /// Takes a program's own anchors of a category back, and tells how many.
    pub fn remove_local(&mut self, category: &str, process: &str) -> (result: usize)
        ensures
            if text::trimmed(process@).len() == 0 {
                result == 0 && *final(self) == *old(self)
            } else {
                &&& result == removed_count(
                    old(self).list(),
                    category@,
                    None,
                    "local"@,
                    process@,
                )
                &&& final(self).list() == after_removal(
                    old(self).list(),
                    category@,
                    None,
                    "local"@,
                    process@,
                )
                &&& final(self).index == if result > 0 {
                    None
                } else {
                    old(self).index
                }
            },
    {
        let trimmed = text::trim(process);
        if text::chars_of(&trimmed).len() == 0 {
            return 0;
        }
        let removed: usize = remove_rows(&mut self.anchors, category, None, "local", process);
        if removed > 0 {
            self.index = None;
        }
        removed
    }
}

proof fn lemma_kept(
    rows: Seq<AnchorModel>,
    text: Option<Seq<char>>,
    scope: Seq<char>,
    process: Seq<char>,
)
    ensures
        ({
            let left = kept(rows, text, scope, process);
            &&& left.len() <= rows.len()
            &&& forall|i: int|
                0 <= i < left.len() ==> rows.contains(#[trigger] left[i]) && !taken_back(
                    left[i],
                    text,
                    scope,
                    process,
                )
            &&& forall|i: int|
                0 <= i < rows.len() && !taken_back(#[trigger] rows[i], text, scope, process)
                    ==> left.contains(rows[i])
            &&& left.len() == rows.len() <==> forall|i: int|
                0 <= i < rows.len() ==> !taken_back(#[trigger] rows[i], text, scope, process)
            &&& left.len() == rows.len() ==> left == rows
        }),
    decreases rows.len(),
{
    if rows.len() > 0 {
        let tail = rows.drop_first();
        lemma_kept(tail, text, scope, process);
        let rest = kept(tail, text, scope, process);
        let left = kept(rows, text, scope, process);
        assert(forall|i: int| 0 <= i < tail.len() ==> #[trigger] tail[i] == rows[i + 1]);
        let shift: int = if taken_back(rows[0], text, scope, process) {
            0
        } else {
            1
        };
        assert(forall|i: int| 0 <= i < rest.len() ==> #[trigger] rest[i] == left[i + shift]);
        assert forall|i: int| 0 <= i < left.len() implies rows.contains(#[trigger] left[i])
            && !taken_back(left[i], text, scope, process) by {
            if i >= shift {
                assert(left[i] == rest[i - shift]);
                assert(tail.contains(rest[i - shift]));
                let j = choose|j: int| 0 <= j < tail.len() && tail[j] == rest[i - shift];
                assert(rows[j + 1] == left[i]);
            } else {
                assert(rows[0] == left[0]);
            }
        }
        assert forall|i: int|
            0 <= i < rows.len() && !taken_back(
                #[trigger] rows[i],
                text,
                scope,
                process,
            ) implies left.contains(rows[i]) by {
            if i > 0 {
                assert(tail[i - 1] == rows[i]);
                assert(rest.contains(tail[i - 1]));
                let j = choose|j: int| 0 <= j < rest.len() && rest[j] == tail[i - 1];
                assert(left[j + shift] == rows[i]);
            } else {
                assert(left[0] == rows[0]);
            }
        }
        if left.len() == rows.len() {
            assert(rest == tail);
            assert(left =~= rows);
            assert forall|i: int| 0 <= i < rows.len() implies !taken_back(
                #[trigger] rows[i],
                text,
                scope,
                process,
            ) by {
                if i > 0 {
                    assert(tail[i - 1] == rows[i]);
                }
            }
        }
        if forall|i: int|
            0 <= i < rows.len() ==> !taken_back(#[trigger] rows[i], text, scope, process) {
            assert(!taken_back(rows[0], text, scope, process));
            assert forall|i: int| 0 <= i < tail.len() implies !taken_back(
                #[trigger] tail[i],
                text,
                scope,
                process,
            ) by {
                assert(!taken_back(rows[i + 1], text, scope, process));
            }
        }
    }
}

proof fn lemma_after_removal(
    list: Seq<(Seq<char>, Seq<AnchorModel>)>,
    category: Seq<char>,
    text: Option<Seq<char>>,
    scope: Seq<char>,
    process: Seq<char>,
    other: Seq<char>,
)
    requires
        anchors::listed_once(list),
    ensures
        ({
            let after = after_removal(list, category, text, scope, process);
            &&& anchors::listed_once(after)
            &&& anchors::rows_under(after, category) == kept(
                anchors::rows_under(list, category),
                text,
                scope,
                process,
            )
            &&& other != category ==> anchors::rows_under(after, other) == anchors::rows_under(
                list,
                other,
            )
        }),
{
    let left = kept(anchors::rows_under(list, category), text, scope, process);
    anchors::law_removed_is_gone(list, category, other);
    anchors::law_put_is_found(list, category, left, other);
    anchors::lemma_put_once(list, category, left);
    if left.len() == 0 {
        assert(left =~= Seq::<AnchorModel>::empty());
    }
}

proof fn lemma_with_anchor(
    list: Seq<(Seq<char>, Seq<AnchorModel>)>,
    category: Seq<char>,
    anchor: AnchorModel,
    other: Seq<char>,
)
    ensures
        anchors::rows_under(with_anchor(list, category, anchor), category) == anchors::rows_under(
            list,
            category,
        ).push(anchor),
        other != category ==> anchors::rows_under(with_anchor(list, category, anchor), other)
            == anchors::rows_under(list, other),
{
    anchors::law_put_is_found(
        list,
        category,
        anchors::rows_under(list, category).push(anchor),
        other,
    );
}

/// The anchor is one of the program's own, and holds the text.
pub open spec fn own_anchor_with(
    anchor: AnchorModel,
    text: Seq<char>,
    process: Seq<char>,
) -> bool {
    &&& anchor.text == text
    &&& text::lowercase_of(anchor.scope) == "local"@
    &&& (match anchor.process_name {
        Some(name) => scoring::normalized(name),
        None => scoring::normalized(""@),
    }) == scoring::normalized(process)
}

/// A correction takes the title back from the category that it was wrongly
/// under. Where some of the program's own anchors there hold it, none of them is
/// left; where none does, no anchor for all programs with that title is left.
/// The category loses nothing else and gets nothing new, and what is told is
/// whether it lost an anchor.
pub proof fn law_corrections_take_the_title_back(
    list: Seq<(Seq<char>, Seq<AnchorModel>)>,
    rows: Seq<IndexedAnchor>,
    category: Seq<char>,
    input: Input,
    old_name: Seq<char>,
    cosines: LearnCosines,
    now: Seq<char>,
)
    requires
        anchors::listed_once(list),
        old_name != category,
        old_name != "未分类"@,
    ensures
        ({
            let lesson = lesson_of(list, rows, category, input, Some(old_name), cosines, now);
            let before = anchors::rows_under(list, old_name);
            let after = anchors::rows_under(lesson.list, old_name);
            let process = text::trimmed(input.process_name@);
            let own = process.len() > 0 && exists|i: int|
                0 <= i < before.len() && own_anchor_with(
                    #[trigger] before[i],
                    input.title@,
                    process,
                );
            &&& lesson.result.negative_removed == (after.len() < before.len())
            &&& own ==> lesson.result.negative_removed && forall|i: int|
                0 <= i < after.len() ==> !own_anchor_with(
                    #[trigger] after[i],
                    input.title@,
                    process,
                )
            &&& !own ==> forall|i: int|
                0 <= i < after.len() ==> !((#[trigger] after[i]).text == input.title@
                    && text::lowercase_of(after[i].scope) == "global"@)
            &&& own ==> forall|i: int|
                0 <= i < before.len() && !own_anchor_with(
                    #[trigger] before[i],
                    input.title@,
                    process,
                ) ==> after.contains(before[i])
            &&& forall|i: int| 0 <= i < after.len() ==> before.contains(#[trigger] after[i])
            &&& forall|i: int|
                0 <= i < before.len() && (#[trigger] before[i]).text != input.title@
                    ==> after.contains(before[i])
        }),
{
    let process = text::trimmed(input.process_name@);
    let title = input.title@;
    let lesson = lesson_of(list, rows, category, input, Some(old_name), cosines, now);
    let before = anchors::rows_under(list, old_name);
    let first = unlearned(list, category, title, process, Some(old_name));
    lemma_learning_adds_only(list, rows, category, input, Some(old_name), cosines, now, old_name);
    let after = anchors::rows_under(first.list, old_name);
    assert(after == anchors::rows_under(lesson.list, old_name));
    reveal_strlit("local");
    reveal_strlit("global");
    assert("local"@.len() != "global"@.len());
    let local = kept(before, Some(title), "local"@, process);
    lemma_kept(before, Some(title), "local"@, process);
    lemma_after_removal(list, old_name, Some(title), "local"@, process, old_name);
    assert forall|a: AnchorModel| own_anchor_with(a, title, process) == #[trigger] taken_back(
        a,
        Some(title),
        "local"@,
        process,
    ) by {}
    let middle = if process.len() > 0 {
        after_removal(list, old_name, Some(title), "local"@, process)
    } else {
        list
    };
    lemma_after_removal(middle, old_name, Some(title), "global"@, process, old_name);
    lemma_kept(
        anchors::rows_under(middle, old_name),
        Some(title),
        "global"@,
        process,
    );
}

proof fn lemma_learning_adds_only(
    list: Seq<(Seq<char>, Seq<AnchorModel>)>,
    rows: Seq<IndexedAnchor>,
    category: Seq<char>,
    input: Input,
    old_category: Option<Seq<char>>,
    cosines: LearnCosines,
    now: Seq<char>,
    other: Seq<char>,
)
    ensures
        ({
            let process = text::trimmed(input.process_name@);
            let first = unlearned(list, category, input.title@, process, old_category);
            let lesson = lesson_of(list, rows, category, input, old_category, cosines, now);
            &&& other != category ==> anchors::rows_under(lesson.list, other)
                == anchors::rows_under(first.list, other)
            &&& lesson.result.negative_removed == first.result.negative_removed
        }),
{
    let process = text::trimmed(input.process_name@);
    let clean_title = scoring::stripped(input.title@, process);
    let first = unlearned(list, category, input.title@, process, old_category);
    let own = anchors::made(
        input.title@,
        "user_feedback"@,
        WEIGHT_TWO,
        "local"@,
        Some(process),
        now,
    );
    lemma_with_anchor(first.list, category, own, other);
    let second = title_learned(
        first,
        category,
        input.title@,
        process,
        said_already(rows, category, cosines.title@, true, process),
        now,
    );
    let shared = anchors::made(clean_title, "user_feedback"@, WEIGHT_TWO, "global"@, None, now);
    lemma_with_anchor(second.list, category, shared, other);
    let third = clean_title_learned(
        second,
        category,
        clean_title,
        said_already(rows, category, cosines.clean_title@, false, ""@),
        now,
    );
    match scoring::feedback_snippet(input.ocr_text@) {
        Some(snippet) => {
            let text_anchor = anchors::made(
                snippet,
                "ocr_feedback"@,
                WEIGHT_ONE_AND_A_HALF,
                "local"@,
                Some(process),
                now,
            );
            lemma_with_anchor(third.list, category, text_anchor, other);
        },
        None => {},
    }
}

/// A category other than the two that a correction is about keeps its anchors;
/// and where nothing is to be taken back, because no other category was named or
/// the screenshot had none, nothing is, and all other categories keep theirs.
pub proof fn law_corrections_leave_the_rest_alone(
    list: Seq<(Seq<char>, Seq<AnchorModel>)>,
    rows: Seq<IndexedAnchor>,
    category: Seq<char>,
    input: Input,
    old_category: Option<Seq<char>>,
    cosines: LearnCosines,
    now: Seq<char>,
    other: Seq<char>,
)
    requires
        anchors::listed_once(list),
        other != category,
    ensures
        ({
            let lesson = lesson_of(list, rows, category, input, old_category, cosines, now);
            let nothing = old_category is None || old_category->0 == category || old_category->0
                == "未分类"@;
            &&& nothing ==> !lesson.result.negative_removed
            &&& nothing || old_category != Some(other) ==> anchors::rows_under(lesson.list, other)
                == anchors::rows_under(list, other)
        }),
{
    lemma_learning_adds_only(list, rows, category, input, old_category, cosines, now, other);
    let process = text::trimmed(input.process_name@);
    match old_category {
        Some(name) => {
            lemma_after_removal(list, name, Some(input.title@), "local"@, process, other);
            let middle = if process.len() > 0 {
                after_removal(list, name, Some(input.title@), "local"@, process)
            } else {
                list
            };
            lemma_after_removal(middle, name, Some(input.title@), "global"@, process, other);
        },
        None => {},
    }
}

/// A row of the index says nearly the same for a category: it is of that
/// category, and its cosine is above 0.95. Among a program's own anchors only
/// those of the program count, among the others only those that are none.
pub open spec fn near_row(
    row: IndexedAnchor,
    cosine: u64,
    category: Seq<char>,
    local: bool,
    process: Seq<char>,
) -> bool {
    &&& row.category@ == category
    &&& (text::lowercase_of(row.anchor.scope@) == "local"@) == local
    &&& local ==> (match row.anchor.process_name {
        Some(name) => scoring::normalized(name@),
        None => scoring::normalized(""@),
    }) == scoring::normalized(process)
    &&& ieee::below(0x3FEE_6666_6666_6666, cosine)
}

/// A correction adds the title as an anchor of the right category: for the
/// program, where there is one, and without the name of the browser for all
/// programs, where it says enough. What some anchor of the category says nearly
/// the same is not added again. New anchors come behind those that were there,
/// and weigh two.
pub proof fn law_corrections_teach_the_title(
    list: Seq<(Seq<char>, Seq<AnchorModel>)>,
    rows: Seq<IndexedAnchor>,
    category: Seq<char>,
    input: Input,
    old_category: Option<Seq<char>>,
    cosines: LearnCosines,
    now: Seq<char>,
)
    requires
        anchors::listed_once(list),
    ensures
        ({
            let lesson = lesson_of(list, rows, category, input, old_category, cosines, now);
            let before = anchors::rows_under(list, category);
            let after = anchors::rows_under(lesson.list, category);
            let process = text::trimmed(input.process_name@);
            let clean_title = scoring::stripped(input.title@, process);
            let near = exists|i: int|
                0 <= i < rows.len() && near_row(
                    #[trigger] rows[i],
                    cosines.title@[i],
                    category,
                    true,
                    process,
                );
            let near_clean = exists|i: int|
                0 <= i < rows.len() && near_row(
                    #[trigger] rows[i],
                    cosines.clean_title@[i],
                    category,
                    false,
                    ""@,
                );
            let r = lesson.result;
            let added = (if r.title_local_added {
                1int
            } else {
                0
            }) + (if r.title_global_added {
                1int
            } else {
                0
            }) + (if r.ocr_local_added {
                1int
            } else {
                0
            });
            &&& r.title_local_added == (process.len() > 0 && !near)
            &&& r.title_local_dedup == (process.len() > 0 && near)
            &&& r.title_global_added == (scoring::says_enough(clean_title) && !near_clean)
            &&& r.title_global_dedup == (scoring::says_enough(clean_title) && near_clean)
            &&& after.len() == before.len() + added
            &&& after.take(before.len() as int) == before
            &&& r.title_local_added ==> {
                let a = after[before.len() as int];
                &&& a.text == input.title@
                &&& a.source == "user_feedback"@
                &&& a.weight == 0x4000_0000_0000_0000
                &&& a.scope == "local"@
                &&& a.process_name == Some(process)
                &&& a.added_at == now
            }
            &&& r.title_global_added ==> {
                let a = after[before.len() + (if r.title_local_added {
                    1int
                } else {
                    0
                })];
                &&& a.text == clean_title
                &&& a.source == "user_feedback"@
                &&& a.weight == 0x4000_0000_0000_0000
                &&& a.scope == "global"@
                &&& a.process_name is None
                &&& a.added_at == now
            }
        }),
{
    let process = text::trimmed(input.process_name@);
    let clean_title = scoring::stripped(input.title@, process);
    let before = anchors::rows_under(list, category);
    let first = unlearned(list, category, input.title@, process, old_category);
    assert(anchors::rows_under(first.list, category) == before) by {
        match old_category {
            Some(name) => {
                lemma_after_removal(list, name, Some(input.title@), "local"@, process, category);
                let middle = if process.len() > 0 {
                    after_removal(list, name, Some(input.title@), "local"@, process)
                } else {
                    list
                };
                lemma_after_removal(
                    middle,
                    name,
                    Some(input.title@),
                    "global"@,
                    process,
                    category,
                );
            },
            None => {},
        }
    }
    lemma_near(rows, category, cosines.title@, true, process);
    lemma_near(rows, category, cosines.clean_title@, false, ""@);
    let own = anchors::made(
        input.title@,
        "user_feedback"@,
        WEIGHT_TWO,
        "local"@,
        Some(process),
        now,
    );
    lemma_with_anchor(first.list, category, own, category);
    let second = title_learned(
        first,
        category,
        input.title@,
        process,
        said_already(rows, category, cosines.title@, true, process),
        now,
    );
    let shared = anchors::made(clean_title, "user_feedback"@, WEIGHT_TWO, "global"@, None, now);
    lemma_with_anchor(second.list, category, shared, category);
    let third = clean_title_learned(
        second,
        category,
        clean_title,
        said_already(rows, category, cosines.clean_title@, false, ""@),
        now,
    );
    match scoring::feedback_snippet(input.ocr_text@) {
        Some(snippet) => {
            let text_anchor = anchors::made(
                snippet,
                "ocr_feedback"@,
                WEIGHT_ONE_AND_A_HALF,
                "local"@,
                Some(process),
                now,
            );
            lemma_with_anchor(third.list, category, text_anchor, category);
        },
        None => {},
    }
    let lesson = lesson_of(list, rows, category, input, old_category, cosines, now);
    assert(anchors::rows_under(lesson.list, category).take(before.len() as int) =~= before);
}

proof fn lemma_near(
    rows: Seq<IndexedAnchor>,
    category: Seq<char>,
    cosines: Seq<u64>,
    local: bool,
    process: Seq<char>,
)
    ensures
        said_already(rows, category, cosines, local, process) == (exists|i: int|
            0 <= i < rows.len() && near_row(
                #[trigger] rows[i],
                cosines[i],
                category,
                local,
                process,
            )),
{
    if said_already(rows, category, cosines, local, process) {
        let i = choose|i: int|
            0 <= i < rows.len() && (#[trigger] rows[i]).category@ == category && is_local(
                rows[i].anchor,
            ) == local && (!local || owner(rows[i].anchor) == scoring::normalized(process))
                && ieee::below(0x3FEE_6666_6666_6666, cosines[i]);
        assert(near_row(rows[i], cosines[i], category, local, process));
    }
}

/// The text of a screenshot is learned for the program, with a weight of one
/// and a half, where it has at least twenty characters, there is a program, and
/// it says something else than the title: its cosine with it is below 0.7. Where
/// some anchor of the program says nearly the same it is not added again.
pub proof fn law_corrections_teach_the_text(
    list: Seq<(Seq<char>, Seq<AnchorModel>)>,
    rows: Seq<IndexedAnchor>,
    category: Seq<char>,
    input: Input,
    old_category: Option<Seq<char>>,
    cosines: LearnCosines,
    now: Seq<char>,
)
    ensures
        ({
            let lesson = lesson_of(list, rows, category, input, old_category, cosines, now);
            let after = anchors::rows_under(lesson.list, category);
            let process = text::trimmed(input.process_name@);
            let wanted = text::trimmed(input.ocr_text@).len() >= 20 && process.len() > 0
                && ieee::below(cosines.title_to_snippet, 0x3FE6_6666_6666_6666);
            let near = exists|i: int|
                0 <= i < rows.len() && near_row(
                    #[trigger] rows[i],
                    cosines.snippet@[i],
                    category,
                    true,
                    process,
                );
            &&& lesson.result.ocr_local_added == (wanted && !near)
            &&& lesson.result.ocr_local_dedup == (wanted && near)
            &&& !lesson.result.ocr_global_added && !lesson.result.ocr_global_dedup
            &&& lesson.result.ocr_local_added ==> {
                let cleaned = scoring::cleaned_ocr(input.ocr_text@);
                let a = after.last();
                &&& after.len() > 0
                &&& cleaned.len() > 0 ==> a.text == cleaned
                &&& cleaned.len() == 0 ==> a.text == text::take_chars(
                    text::trimmed(input.ocr_text@),
                    200,
                )
                &&& a.source == "ocr_feedback"@
                &&& a.weight == 0x3FF8_0000_0000_0000
                &&& a.scope == "local"@
                &&& a.process_name == Some(process)
            }
        }),
{
    let process = text::trimmed(input.process_name@);
    lemma_near(rows, category, cosines.snippet@, true, process);
    let clean_title = scoring::stripped(input.title@, process);
    let first = unlearned(list, category, input.title@, process, old_category);
    let second = title_learned(
        first,
        category,
        input.title@,
        process,
        said_already(rows, category, cosines.title@, true, process),
        now,
    );
    let third = clean_title_learned(
        second,
        category,
        clean_title,
        said_already(rows, category, cosines.clean_title@, false, ""@),
        now,
    );
    match scoring::feedback_snippet(input.ocr_text@) {
        Some(snippet) => {
            let text_anchor = anchors::made(
                snippet,
                "ocr_feedback"@,
                WEIGHT_ONE_AND_A_HALF,
                "local"@,
                Some(process),
                now,
            );
            lemma_with_anchor(third.list, category, text_anchor, category);
        },
        None => {},
    }
}

/// Taking a program's own anchors of a category back leaves none of them there,
/// and all the others, in that category and in every other.
pub proof fn law_own_anchors_are_taken_back(
    list: Seq<(Seq<char>, Seq<AnchorModel>)>,
    category: Seq<char>,
    process: Seq<char>,
    other: Seq<char>,
)
    requires
        anchors::listed_once(list),
    ensures
        ({
            let before = anchors::rows_under(list, category);
            let after = anchors::rows_under(
                after_removal(list, category, None, "local"@, process),
                category,
            );
            &&& removed_count(list, category, None, "local"@, process) == before.len() - after.len()
            &&& forall|i: int|
                0 <= i < after.len() ==> before.contains(#[trigger] after[i]) && !own_anchor_with(
                    after[i],
                    after[i].text,
                    process,
                )
            &&& forall|i: int|
                0 <= i < before.len() && !own_anchor_with(
                    #[trigger] before[i],
                    before[i].text,
                    process,
                ) ==> after.contains(before[i])
            &&& other != category ==> anchors::rows_under(
                after_removal(list, category, None, "local"@, process),
                other,
            ) == anchors::rows_under(list, other)
        }),
{
    lemma_after_removal(list, category, None, "local"@, process, other);
    lemma_kept(anchors::rows_under(list, category), None, "local"@, process);
    assert forall|a: AnchorModel| #[trigger] own_anchor_with(a, a.text, process) == taken_back(
        a,
        None,
        "local"@,
        process,
    ) by {}
}

/// What was taken back is gone: nothing more is taken back a second time.
pub proof fn law_removal_is_complete(
    rows: Seq<AnchorModel>,
    text: Option<Seq<char>>,
    scope: Seq<char>,
    process: Seq<char>,
)
    ensures
        kept(kept(rows, text, scope, process), text, scope, process) == kept(
            rows,
            text,
            scope,
            process,
        ),
        forall|i: int|
            0 <= i < kept(rows, text, scope, process).len() ==> !taken_back(
                #[trigger] kept(rows, text, scope, process)[i],
                text,
                scope,
                process,
            ),
    decreases rows.len(),
{
    if rows.len() > 0 {
        let rest = kept(rows.drop_first(), text, scope, process);
        let all = kept(rows, text, scope, process);
        law_removal_is_complete(rows.drop_first(), text, scope, process);
        if !taken_back(rows[0], text, scope, process) {
            assert(all.drop_first() =~= rest);
            assert forall|i: int| 0 <= i < all.len() implies !taken_back(
                #[trigger] all[i],
                text,
                scope,
                process,
            ) by {
                if i > 0 {
                    assert(all[i] == rest[i - 1]);
                }
            }
        }
    }
}

/// What is compared are the anchors with a text: every one of the list whose
/// text is not blank, under its category, and nothing else.
pub proof fn law_anchors_with_texts_are_compared(
    list: Seq<(Seq<char>, Seq<AnchorModel>)>,
    i: int,
    j: int,
)
    requires
        0 <= i < list.len(),
        0 <= j < list[i].1.len(),
    ensures
        text::trimmed(list[i].1[j].text).len() > 0 ==> flat(list).contains(
            (list[i].0, list[i].1[j]),
        ),
        forall|k: int|
            0 <= k < flat(list).len() ==> text::trimmed((#[trigger] flat(list)[k]).1.text).len() > 0,
    decreases list.len(),
{
    let head = list.drop_last();
    let last = list.last();
    let all = flat(list);
    let before = flat(head);
    let own = flat_rows(last.0, last.1);
    lemma_flat_blank(list);
    if text::trimmed(list[i].1[j].text).len() > 0 {
        let entry = (list[i].0, list[i].1[j]);
        if i < head.len() {
            assert(head[i] == list[i]);
            law_anchors_with_texts_are_compared(head, i, j);
            let k = choose|k: int| 0 <= k < before.len() && before[k] == entry;
            assert(all[k] == entry);
        } else {
            lemma_flat_row(last.0, last.1, j);
            let k = choose|k: int| 0 <= k < own.len() && own[k] == entry;
            assert(all[before.len() + k] == entry);
        }
    }
}

proof fn lemma_flat_row(category: Seq<char>, rows: Seq<AnchorModel>, j: int)
    requires
        0 <= j < rows.len(),
        text::trimmed(rows[j].text).len() > 0,
    ensures
        flat_rows(category, rows).contains((category, rows[j])),
    decreases rows.len(),
{
    let head = rows.drop_last();
    let all = flat_rows(category, rows);
    if j < head.len() {
        lemma_flat_row(category, head, j);
        let before = flat_rows(category, head);
        let k = choose|k: int| 0 <= k < before.len() && before[k] == (category, rows[j]);
        assert(all[k] == (category, rows[j]));
    } else {
        assert(all[all.len() - 1] == (category, rows[j]));
    }
}

proof fn lemma_flat_rows_blank(category: Seq<char>, rows: Seq<AnchorModel>)
    ensures
        forall|k: int|
            0 <= k < flat_rows(category, rows).len() ==> text::trimmed(
                (#[trigger] flat_rows(category, rows)[k]).1.text,
            ).len() > 0,
    decreases rows.len(),
{
    if rows.len() > 0 {
        let before = flat_rows(category, rows.drop_last());
        let all = flat_rows(category, rows);
        lemma_flat_rows_blank(category, rows.drop_last());
        assert forall|k: int| 0 <= k < all.len() implies text::trimmed(
            (#[trigger] all[k]).1.text,
        ).len() > 0 by {
            if k < before.len() {
                assert(all[k] == before[k]);
            }
        }
    }
}

proof fn lemma_flat_blank(list: Seq<(Seq<char>, Seq<AnchorModel>)>)
    ensures
        forall|k: int|
            0 <= k < flat(list).len() ==> text::trimmed((#[trigger] flat(list)[k]).1.text).len() > 0,
    decreases list.len(),
{
    if list.len() > 0 {
        let before = flat(list.drop_last());
        let own = flat_rows(list.last().0, list.last().1);
        let all = flat(list);
        lemma_flat_blank(list.drop_last());
        lemma_flat_rows_blank(list.last().0, list.last().1);
        assert forall|k: int| 0 <= k < all.len() implies text::trimmed(
            (#[trigger] all[k]).1.text,
        ).len() > 0 by {
            if k < before.len() {
                assert(all[k] == before[k]);
            } else {
                assert(all[k] == own[k - before.len()]);
            }
        }
    }
}

} // verus!
