//! Search over a generation of the image index and its tail.
//!
//! The base is immutable; subjects that changed after it was built are scanned
//! from the tail, and hide their entries in the base. Scores are computed by
//! the caller's function from a vector's bit patterns.
use crate::ann_sidecar::MappedFlatIndex;
use crate::clip_ann::{ClipAnnQuery, ClipAnnState};
use crate::clip_contract::CLIP_DIMENSIONS;
use crate::derived::DerivedAnnTailRow;
use crate::paths::PathParts;
use crate::ranking::{insert_scored, BoundedTopK, Scored, ScoredSubject};
use crate::{ann_format, ann_sidecar, clip_ann, ranking, text};
use vstd::prelude::*;
use vstd::string::*;

verus! {

pub const MAX_TAIL_ROWS: u64 = 20_000;

pub const ANN_MAX_CANDIDATES: usize = 4096;

/// How many neighbours are asked for when `requested` results are wanted: four
/// times as many, and at least 64 more, but not more than there are.
pub open spec fn candidate_count(rows: int, requested: int) -> int {
    let fourfold = if requested * 4 > usize::MAX {
        usize::MAX as int
    } else {
        requested * 4
    };
    let padded = if requested + 64 > usize::MAX {
        usize::MAX as int
    } else {
        requested + 64
    };
    let most = if fourfold < padded {
        padded
    } else {
        fourfold
    };
    let there = if most < rows {
        most
    } else {
        rows
    };
    if there < 4096 {
        there
    } else {
        4096
    }
}

pub fn ann_candidate_count(rows: usize, requested: usize) -> (result: usize)
    ensures
        result == candidate_count(rows as int, requested as int),
{
    let fourfold: usize = match requested.checked_mul(4) {
        Some(n) => n,
        None => usize::MAX,
    };
    let padded: usize = requested.saturating_add(64);
    let most: usize = if fourfold < padded {
        padded
    } else {
        fourfold
    };
    let there: usize = if most < rows {
        most
    } else {
        rows
    };
    if there < ANN_MAX_CANDIDATES {
        there
    } else {
        ANN_MAX_CANDIDATES
    }
}

/// As many neighbours are asked for as there are, up to 4096; more than that
/// never, fewer than are wanted only where there are no more, and never fewer
/// than for fewer results.
pub proof fn law_enough_neighbours_are_asked_for(rows: usize, wanted: usize, more: usize)
    requires
        wanted <= more,
    ensures
        candidate_count(rows as int, wanted as int) <= rows,
        candidate_count(rows as int, wanted as int) <= 4096,
        candidate_count(rows as int, wanted as int) <= candidate_count(rows as int, more as int),
        wanted <= rows && wanted <= 4096 ==> candidate_count(rows as int, wanted as int) >= wanted,
        wanted + 64 <= rows && wanted + 64 <= 4096 ==> candidate_count(rows as int, wanted as int)
            >= wanted + 64,
        wanted * 4 <= rows && wanted * 4 <= 4096 ==> candidate_count(rows as int, wanted as int)
            >= wanted * 4,
        wanted * 4 <= 4096 && wanted + 64 <= 4096 ==> candidate_count(rows as int, wanted as int)
            == rows || candidate_count(rows as int, wanted as int) == wanted * 4 || candidate_count(
            rows as int,
            wanted as int,
        ) == wanted + 64,
{
}

/// How widely a graph over so many rows is searched.
pub open spec fn search_width(rows: int) -> int {
    if rows / 600 < 2400 {
        2400
    } else if rows / 600 > 4096 {
        4096
    } else {
        rows / 600
    }
}

/// How widely a graph over `rows` rows is searched.
pub fn expansion_search(rows: usize) -> (result: usize)
    ensures
        result == search_width(rows as int),
{
    let wide: usize = rows / 600;
    if wide < 2400 {
        2400
    } else if wide > ANN_MAX_CANDIDATES {
        ANN_MAX_CANDIDATES
    } else {
        wide
    }
}

/// The subject changed after the base was built.
pub open spec fn changed(tail: Seq<DerivedAnnTailRow>, key: Seq<char>) -> bool {
    exists|i: int| 0 <= i < tail.len() && (#[trigger] tail[i]).subject_key@ == key
}

fn has_changed(tail: &[DerivedAnnTailRow], key: &str) -> (result: bool)
    ensures
        result == changed(tail@, key@),
{
    let mut i: usize = 0;
    while i < tail.len()
        invariant
            i <= tail@.len(),
            forall|j: int| 0 <= j < i ==> (#[trigger] tail@[j]).subject_key@ != key@,
        decreases tail@.len() - i,
    {
        if text::same(&tail[i].subject_key, key) {
            return true;
        }
        i = i + 1;
    }
    false
}

/// A file with its header, as searches read it.
pub struct FlatModel {
    pub bytes: Seq<u8>,
    pub header: ann_format::HeaderModel,
}

/// The file that an opened index reads.
pub open spec fn model_of(flat: MappedFlatIndex) -> FlatModel {
    FlatModel { bytes: flat.map@, header: flat.header@ }
}

impl FlatModel {
    /// The key of a row, or why it cannot be read.
    pub open spec fn key(self, ordinal: nat) -> Result<Seq<char>, Seq<char>> {
        ann_sidecar::key_of(self.bytes, self.header, ordinal)
    }

    /// The vector of a row.
    pub open spec fn vector(self, ordinal: nat) -> Seq<u32> {
        ann_sidecar::words(ann_sidecar::vector_bytes_of(self.bytes, self.header, ordinal))
    }

    /// The row that a key of the graph stands for: keys count from 1.
    pub open spec fn subject(self, graph_key: u64) -> Result<Seq<char>, Seq<char>> {
        if graph_key == 0 || graph_key - 1 > usize::MAX {
            Err("ann_search_returned_invalid_key"@)
        } else {
            self.key((graph_key - 1) as nat)
        }
    }

    /// Why the matches cannot be resolved, if they cannot.
    pub open spec fn matches_fault(self, keys: Seq<u64>) -> Option<Seq<char>>
        decreases keys.len(),
    {
        if keys.len() == 0 {
            None
        } else {
            match self.subject(keys[0]) {
                Err(fault) => Some(fault),
                Ok(_) => self.matches_fault(keys.drop_first()),
            }
        }
    }

    /// The matched rows whose subjects did not change, in order: each subject
    /// with the number of its row.
    pub open spec fn standing(self, keys: Seq<u64>, tail: Seq<DerivedAnnTailRow>) -> Seq<
        (Seq<char>, nat),
    >
        decreases keys.len(),
    {
        if keys.len() == 0 {
            Seq::empty()
        } else {
            let rest = self.standing(keys.drop_last(), tail);
            let key = self.subject(keys.last())->Ok_0;
            if changed(tail, key) {
                rest
            } else {
                rest.push((key, (keys.last() - 1) as nat))
            }
        }
    }

    /// The rows before `n` whose subjects did not change.
    pub open spec fn standing_rows(self, n: nat, tail: Seq<DerivedAnnTailRow>) -> Seq<
        (Seq<char>, nat),
    >
        decreases n,
    {
        if n == 0 {
            Seq::empty()
        } else {
            let rest = self.standing_rows((n - 1) as nat, tail);
            let key = self.key((n - 1) as nat)->Ok_0;
            if changed(tail, key) {
                rest
            } else {
                rest.push((key, (n - 1) as nat))
            }
        }
    }
}

/// The function gives this score to the vector.
pub open spec fn scores_as<F: Fn(&Vec<u32>) -> u32>(score: F, vector: Seq<u32>, value: u32) -> bool {
    exists|v: Vec<u32>| v@ == vector && #[trigger] call_ensures(score, (&v,), value)
}

/// Each listed row of the file was given a score.
pub open spec fn rows_scored<F: Fn(&Vec<u32>) -> u32>(
    score: F,
    file: FlatModel,
    rows: Seq<(Seq<char>, nat)>,
    scored: Seq<Scored>,
) -> bool {
    &&& scored.len() == rows.len()
    &&& forall|i: int|
        0 <= i < rows.len() ==> {
            &&& (#[trigger] scored[i]).key == rows[i].0
            &&& scores_as(score, file.vector(rows[i].1), scored[i].score)
        }
}

/// A row of the tail takes part in searches: it has a vector of the width that
/// is searched for.
pub open spec fn takes_part(row: DerivedAnnTailRow, width: nat) -> bool {
    row.vector is Some && row.vector->0@.len() == width
}

/// Each row of the tail that takes part was given a score.
pub open spec fn tail_scored<F: Fn(&Vec<u32>) -> u32>(
    score: F,
    tail: Seq<DerivedAnnTailRow>,
    width: nat,
    scores: Seq<u32>,
) -> bool {
    &&& scores.len() == tail.len()
    &&& forall|i: int|
        0 <= i < tail.len() && takes_part(tail[i], width) ==> scores_as(
            score,
            tail[i].vector->0@,
            #[trigger] scores[i],
        )
}

/// The scores by subject, with these results put in one after the other.
pub open spec fn with_results(map: Map<Seq<char>, u32>, results: Seq<Scored>) -> Map<Seq<char>, u32>
    decreases results.len(),
{
    if results.len() == 0 {
        map
    } else {
        with_results(map, results.drop_last()).insert(results.last().key, results.last().score)
    }
}

/// The scores by subject after the first `n` rows of the tail: a vector
/// replaces what was there, a deletion removes it.
pub open spec fn with_tail(
    map: Map<Seq<char>, u32>,
    tail: Seq<DerivedAnnTailRow>,
    width: nat,
    scores: Seq<u32>,
    n: nat,
) -> Map<Seq<char>, u32>
    decreases n,
{
    if n == 0 {
        map
    } else {
        let before = with_tail(map, tail, width, scores, (n - 1) as nat);
        let row = tail[n - 1];
        if row.vector is None {
            before.remove(row.subject_key@)
        } else if takes_part(row, width) {
            before.insert(row.subject_key@, scores[n - 1])
        } else {
            before
        }
    }
}

/// The list holds every entry of the map once, and nothing else.
pub open spec fn lists(entries: Seq<Scored>, map: Map<Seq<char>, u32>) -> bool {
    &&& forall|i: int, j: int|
        0 <= i < j < entries.len() ==> (#[trigger] entries[i]).key != (#[trigger] entries[j]).key
    &&& forall|i: int|
        0 <= i < entries.len() ==> map.contains_key((#[trigger] entries[i]).key)
            && map[entries[i].key] == entries[i].score
    &&& forall|key: Seq<char>| #[trigger]
        map.contains_key(key) ==> exists|i: int|
            0 <= i < entries.len() && (#[trigger] entries[i]).key == key
}

fn find_entry(entries: &Vec<ScoredSubject>, key: &str) -> (result: usize)
    ensures
        result <= entries@.len(),
        result < entries@.len() ==> entries@[result as int].subject_key@ == key@,
        forall|i: int| 0 <= i < result ==> (#[trigger] entries@[i]).subject_key@ != key@,
{
    let mut i: usize = 0;
    while i < entries.len() && !text::same(&entries[i].subject_key, key)
        invariant
            i <= entries@.len(),
            forall|j: int| 0 <= j < i ==> (#[trigger] entries@[j]).subject_key@ != key@,
        decreases entries@.len() - i,
    {
        i = i + 1;
    }
    i
}

fn put_entry(
    entries: &mut Vec<ScoredSubject>,
    key: &str,
    score: u32,
    Ghost(map): Ghost<Map<Seq<char>, u32>>,
)
    requires
        lists(ranking::scored_views(old(entries)@), map),
    ensures
        lists(ranking::scored_views(final(entries)@), map.insert(key@, score)),
{
    let ghost before = ranking::scored_views(entries@);
    let at: usize = find_entry(entries, key);
    if at < entries.len() {
        let old = entries.remove(at);
        entries.insert(at, ScoredSubject { subject_key: key.to_owned(), score });
        proof {
            let after = ranking::scored_views(entries@);
            let now = map.insert(key@, score);
            assert(before[at as int].key == key@);
            assert forall|i: int| 0 <= i < after.len() implies (#[trigger] after[i]).key
                == before[i].key by {}
            assert forall|i: int| 0 <= i < after.len() implies now.contains_key(
                (#[trigger] after[i]).key,
            ) && now[after[i].key] == after[i].score by {
                assert(map.contains_key(before[i].key));
                if i != at {
                    assert(before[i].key != before[at as int].key);
                }
            }
            assert forall|k: Seq<char>| #[trigger] now.contains_key(k) implies exists|i: int|
                0 <= i < after.len() && (#[trigger] after[i]).key == k by {
                assert(map.contains_key(k) || k == key@);
                if k == key@ {
                    assert(after[at as int].key == k);
                } else {
                    let i = choose|i: int| 0 <= i < before.len() && (#[trigger] before[i]).key == k;
                    assert(after[i].key == k);
                }
            }
        }
    } else {
        entries.push(ScoredSubject { subject_key: key.to_owned(), score });
        proof {
            let after = ranking::scored_views(entries@);
            let now = map.insert(key@, score);
            assert forall|i: int| 0 <= i < before.len() implies #[trigger] after[i]
                == before[i] by {}
            assert(forall|i: int| 0 <= i < before.len() ==> (#[trigger] before[i]).key != key@);
            assert(after[at as int] == (Scored { key: key@, score }));
            assert forall|i: int| 0 <= i < after.len() implies now.contains_key(
                (#[trigger] after[i]).key,
            ) && now[after[i].key] == after[i].score by {
                if i < before.len() {
                    assert(map.contains_key(before[i].key));
                }
            }
            assert forall|k: Seq<char>| #[trigger] now.contains_key(k) implies exists|i: int|
                0 <= i < after.len() && (#[trigger] after[i]).key == k by {
                if k == key@ {
                    assert(after[at as int].key == k);
                } else {
                    assert(map.contains_key(k));
                    let i = choose|i: int| 0 <= i < before.len() && (#[trigger] before[i]).key == k;
                    assert(after[i].key == k);
                }
            }
        }
    }
}

fn drop_entry(entries: &mut Vec<ScoredSubject>, key: &str, Ghost(map): Ghost<Map<Seq<char>, u32>>)
    requires
        lists(ranking::scored_views(old(entries)@), map),
    ensures
        lists(ranking::scored_views(final(entries)@), map.remove(key@)),
{
    let ghost before = ranking::scored_views(entries@);
    let at: usize = find_entry(entries, key);
    if at < entries.len() {
        let old = entries.remove(at);
        proof {
            let after = ranking::scored_views(entries@);
            let now = map.remove(key@);
            assert(before[at as int].key == key@);
            assert forall|i: int| 0 <= i < after.len() implies #[trigger] after[i] == before[if i
                < at {
                i
            } else {
                i + 1
            }] by {}
            assert forall|i: int| 0 <= i < after.len() implies now.contains_key(
                (#[trigger] after[i]).key,
            ) && now[after[i].key] == after[i].score by {
                let b = if i < at {
                    i
                } else {
                    i + 1
                };
                assert(map.contains_key(before[b].key));
                assert(before[b].key != before[at as int].key);
            }
            assert forall|k: Seq<char>| #[trigger] now.contains_key(k) implies exists|i: int|
                0 <= i < after.len() && (#[trigger] after[i]).key == k by {
                assert(map.contains_key(k) && k != key@);
                let i = choose|i: int| 0 <= i < before.len() && (#[trigger] before[i]).key == k;
                assert(i != at);
                let a = if i < at {
                    i
                } else {
                    i - 1
                };
                assert(after[a].key == k);
            }
        }
    } else {
        proof {
            assert(forall|i: int| 0 <= i < before.len() ==> (#[trigger] before[i]).key != key@);
            assert forall|i: int| 0 <= i < before.len() implies map.remove(key@).contains_key(
                (#[trigger] before[i]).key,
            ) by {
                assert(map.contains_key(before[i].key));
            }
            assert forall|k: Seq<char>| #[trigger] map.remove(key@).contains_key(
                k,
            ) implies exists|i: int| 0 <= i < before.len() && (#[trigger] before[i]).key == k by {
                assert(map.contains_key(k));
            }
        }
    }
}

/// The first `k` of the entries in order.
fn best_of(entries: &Vec<ScoredSubject>, k: usize) -> (result: Vec<ScoredSubject>)
    ensures
        ranking::scored_views(result@) == ranking::first_of(
            ranking::ranked(ranking::scored_views(entries@)),
            k as nat,
        ),
{
    let ghost all = ranking::scored_views(entries@);
    let mut sorted: Vec<ScoredSubject> = Vec::new();
    let mut i: usize = 0;
    assert(all.take(0) =~= Seq::<Scored>::empty());
    assert(ranking::scored_views(sorted@) =~= Seq::<Scored>::empty());
    while i < entries.len()
        invariant
            i <= entries@.len(),
            all == ranking::scored_views(entries@),
            all.len() == entries@.len(),
            ranking::scored_views(sorted@) == ranking::ranked(all.take(i as int)),
            sorted@.len() == i,
        decreases entries@.len() - i,
    {
        assert(all.take(i + 1).drop_last() =~= all.take(i as int));
        assert(all.take(i + 1).last() == entries@[i as int]@);
        insert_scored(&mut sorted, entries[i].copy());
        i = i + 1;
    }
    assert(all.take(all.len() as int) =~= all);
    let ghost whole = ranking::scored_views(sorted@);
    while sorted.len() > k
        invariant
            sorted@.len() <= whole.len(),
            sorted@.len() >= k || sorted@.len() == whole.len(),
            ranking::scored_views(sorted@) == whole.take(sorted@.len() as int),
        decreases sorted@.len(),
    {
        let ghost before = sorted@;
        sorted.pop();
        assert(ranking::scored_views(sorted@) =~= whole.take(sorted@.len() as int));
    }
    assert(whole.take(whole.len() as int) =~= whole);
    sorted
}

/// The answer to a search: the `k` best of the matches and the tail.
pub open spec fn answers<F: Fn(&Vec<u32>) -> u32>(
    score: F,
    file: FlatModel,
    keys: Seq<u64>,
    tail: Seq<DerivedAnnTailRow>,
    width: nat,
    k: nat,
    result: Seq<Scored>,
) -> bool {
    exists|base: Seq<Scored>, tail_scores: Seq<u32>, entries: Seq<Scored>|
        #![trigger rows_scored(score, file, file.standing(keys, tail), base), tail_scored(
            score,
            tail,
            width,
            tail_scores,
        ), ranking::ranked(entries)]
        {
            &&& rows_scored(score, file, file.standing(keys, tail), base)
            &&& tail_scored(score, tail, width, tail_scores)
            &&& lists(
                entries,
                with_tail(
                    with_results(Map::empty(), base),
                    tail,
                    width,
                    tail_scores,
                    tail.len(),
                ),
            )
            &&& result == ranking::first_of(ranking::ranked(entries), k)
        }
}

/// Resolves and scores the matches of the graph and the rows of the tail, and
/// returns the `k` best.
pub fn query_generation<F: Fn(&Vec<u32>) -> u32>(
    flat: &MappedFlatIndex,
    keys: &[u64],
    tail: &[DerivedAnnTailRow],
    width: usize,
    k: usize,
    score: F,
) -> (result: Result<Vec<ScoredSubject>, String>)
    requires
        flat.wf(),
        forall|v: Vec<u32>| #[trigger] call_requires(score, (&v,)),
    ensures
        match result {
            Err(e) => model_of(*flat).matches_fault(keys@) == Some(e@),
            Ok(best) => {
                &&& model_of(*flat).matches_fault(keys@) is None
                &&& answers(
                    score,
                    model_of(*flat),
                    keys@,
                    tail@,
                    width as nat,
                    k as nat,
                    ranking::scored_views(best@),
                )
            },
        },
{
    let ghost file = model_of(*flat);
    let mut entries: Vec<ScoredSubject> = Vec::new();
    let ghost mut base: Seq<Scored> = Seq::empty();
    let mut i: usize = 0;
    proof {
        assert(keys@.take(0) =~= Seq::<u64>::empty());
        assert(keys@.skip(0) =~= keys@);
        assert(ranking::scored_views(entries@) =~= Seq::<Scored>::empty());
    }
    while i < keys.len()
        invariant
            i <= keys@.len(),
            flat.wf(),
            file == model_of(*flat),
            forall|v: Vec<u32>| #[trigger] call_requires(score, (&v,)),
            file.matches_fault(keys@) == file.matches_fault(keys@.skip(i as int)),
            rows_scored(score, file, file.standing(keys@.take(i as int), tail@), base),
            lists(ranking::scored_views(entries@), with_results(Map::empty(), base)),
        decreases keys@.len() - i,
    {
        proof {
            assert(keys@.skip(i as int)[0] == keys@[i as int]);
            assert(keys@.skip(i as int).drop_first() =~= keys@.skip(i + 1));
            assert(keys@.take(i + 1).drop_last() =~= keys@.take(i as int));
            assert(keys@.take(i + 1).last() == keys@[i as int]);
        }
        let graph_key: u64 = keys[i];
        if graph_key == 0 || graph_key - 1 > usize::MAX as u64 {
            return Err("ann_search_returned_invalid_key".to_owned());
        }
        let ordinal: usize = (graph_key - 1) as usize;
        let subject = match flat.key(ordinal) {
            Err(e) => {
                return Err(e);
            },
            Ok(subject) => subject,
        };
        if !has_changed(tail, subject) {
            let vector = match flat.vector(ordinal) {
                Err(e) => {
                    assert(false);
                    return Err(e);
                },
                Ok(vector) => vector,
            };
            let value: u32 = score(&vector);
            put_entry(&mut entries, subject, value, Ghost(with_results(Map::empty(), base)));
            proof {
                let x = Scored { key: subject@, score: value };
                let rows = file.standing(keys@.take(i as int), tail@);
                assert(base.push(x).drop_last() =~= base);
                assert(scores_as(score, file.vector(ordinal as nat), value));
                assert(rows_scored(
                    score,
                    file,
                    rows.push((subject@, ordinal as nat)),
                    base.push(x),
                ));
                base = base.push(x);
            }
        }
        i = i + 1;
    }
    assert(keys@.take(keys@.len() as int) =~= keys@);
    assert(keys@.skip(keys@.len() as int) =~= Seq::<u64>::empty());
    let ghost start = with_results(Map::empty(), base);
    let ghost mut tail_scores: Seq<u32> = Seq::empty();
    let mut t: usize = 0;
    while t < tail.len()
        invariant
            t <= tail@.len(),
            forall|v: Vec<u32>| #[trigger] call_requires(score, (&v,)),
            tail_scores.len() == t,
            forall|j: int|
                0 <= j < t && takes_part(tail@[j], width as nat) ==> scores_as(
                    score,
                    tail@[j].vector->0@,
                    #[trigger] tail_scores[j],
                ),
            lists(
                ranking::scored_views(entries@),
                with_tail(start, tail@, width as nat, tail_scores, t as nat),
            ),
        decreases tail@.len() - t,
    {
        let row = &tail[t];
        let ghost so_far = with_tail(start, tail@, width as nat, tail_scores, t as nat);
        let ghost before = tail_scores;
        match &row.vector {
            Some(vector) => {
                if vector.len() == width {
                    let value: u32 = score(vector);
                    put_entry(&mut entries, &row.subject_key, value, Ghost(so_far));
                    proof {
                        tail_scores = tail_scores.push(value);
                        assert(scores_as(score, tail@[t as int].vector->0@, value));
                    }
                } else {
                    proof {
                        tail_scores = tail_scores.push(0);
                    }
                }
            },
            None => {
                drop_entry(&mut entries, &row.subject_key, Ghost(so_far));
                proof {
                    tail_scores = tail_scores.push(0);
                }
            },
        }
        proof {
            lemma_tail_scores_agree(
                start,
                tail@,
                width as nat,
                before,
                tail_scores,
                t as nat,
            );
            assert forall|j: int|
                0 <= j < t + 1 && takes_part(tail@[j], width as nat) implies scores_as(
                score,
                tail@[j].vector->0@,
                #[trigger] tail_scores[j],
            ) by {
                if j < t {
                    assert(tail_scores[j] == before[j]);
                }
            }
        }
        t = t + 1;
    }
    let best = best_of(&entries, k);
    assert(tail_scored(score, tail@, width as nat, tail_scores));
    assert(rows_scored(score, file, file.standing(keys@, tail@), base));
    assert(answers(
        score,
        file,
        keys@,
        tail@,
        width as nat,
        k as nat,
        ranking::scored_views(best@),
    ));
    Ok(best)
}

proof fn lemma_tail_scores_agree(
    map: Map<Seq<char>, u32>,
    tail: Seq<DerivedAnnTailRow>,
    width: nat,
    a: Seq<u32>,
    b: Seq<u32>,
    n: nat,
)
    requires
        n <= a.len(),
        n <= b.len(),
        forall|i: int| 0 <= i < n ==> #[trigger] a[i] == b[i],
    ensures
        with_tail(map, tail, width, a, n) == with_tail(map, tail, width, b, n),
    decreases n,
{
    if n > 0 {
        lemma_tail_scores_agree(map, tail, width, a, b, (n - 1) as nat);
        assert(a[n - 1] == b[n - 1]);
    }
}

/// The rows of the tail before `n` that take part, in order.
pub open spec fn taking_part(tail: Seq<DerivedAnnTailRow>, width: nat, n: nat) -> Seq<int>
    decreases n,
{
    if n == 0 {
        Seq::empty()
    } else {
        let rest = taking_part(tail, width, (n - 1) as nat);
        if takes_part(tail[n - 1], width) {
            rest.push(n - 1)
        } else {
            rest
        }
    }
}

/// Each listed row of the tail was given a score.
pub open spec fn tail_rows_scored<F: Fn(&Vec<u32>) -> u32>(
    score: F,
    tail: Seq<DerivedAnnTailRow>,
    rows: Seq<int>,
    scored: Seq<Scored>,
) -> bool {
    &&& scored.len() == rows.len()
    &&& forall|i: int|
        0 <= i < rows.len() ==> {
            &&& (#[trigger] scored[i]).key == tail[rows[i]].subject_key@
            &&& scores_as(score, tail[rows[i]].vector->0@, scored[i].score)
        }
}

/// The answer to an exact search: the `k` best of all rows that did not change
/// and of the tail.
pub open spec fn answers_exactly<F: Fn(&Vec<u32>) -> u32>(
    score: F,
    file: FlatModel,
    tail: Seq<DerivedAnnTailRow>,
    width: nat,
    k: nat,
    result: Seq<Scored>,
) -> bool {
    exists|base: Seq<Scored>, later: Seq<Scored>|
        #![trigger rows_scored(
            score,
            file,
            file.standing_rows(file.header.row_count as nat, tail),
            base,
        ), tail_rows_scored(score, tail, taking_part(tail, width, tail.len()), later)]
        {
            &&& rows_scored(score, file, file.standing_rows(file.header.row_count as nat, tail), base)
            &&& tail_rows_scored(score, tail, taking_part(tail, width, tail.len()), later)
            &&& result == ranking::first_of(ranking::ranked(base + later), k)
        }
}

/// The keys of the rows before this one can be read.
pub open spec fn readable_before(file: FlatModel, n: nat) -> bool {
    forall|ordinal: nat| ordinal < n ==> #[trigger] file.key(ordinal) is Ok
}

/// The first row whose key cannot be read is this one, for this reason.
pub open spec fn first_fault(file: FlatModel, ordinal: nat, fault: Seq<char>) -> bool {
    &&& ordinal < file.header.row_count
    &&& readable_before(file, ordinal)
    &&& file.key(ordinal) == Err::<Seq<char>, Seq<char>>(fault)
}

/// Every key can be read.
pub open spec fn keys_readable(file: FlatModel) -> bool {
    readable_before(file, file.header.row_count as nat)
}

/// The deadline is asked before this row of the base.
pub open spec fn asked_at_row(file: FlatModel, ordinal: nat) -> bool {
    ordinal < file.header.row_count && ordinal % 4096 == 0 && readable_before(file, ordinal)
}

/// The deadline is asked before this row of the tail.
pub open spec fn asked_at_tail(file: FlatModel, tail: Seq<DerivedAnnTailRow>, t: nat) -> bool {
    t < tail.len() && t % 1024 == 0 && keys_readable(file)
}

/// What scanning the rows that did not change, and the tail, comes to.
pub open spec fn scanned<F: Fn(&Vec<u32>) -> u32, D: Fn() -> bool>(
    score: F,
    late: D,
    flat: MappedFlatIndex,
    tail: Seq<DerivedAnnTailRow>,
    width: usize,
    k: usize,
    result: Result<Vec<ScoredSubject>, String>,
) -> bool {
    match result {
        Err(e) => {
            ||| {
                &&& e@ == "query_deadline_exceeded_during_flat_exact"@
                &&& call_ensures(late, (), true)
                &&& {
                    ||| exists|ordinal: nat| #[trigger] asked_at_row(model_of(flat), ordinal)
                    ||| exists|t: nat| #[trigger] asked_at_tail(model_of(flat), tail, t)
                }
            }
            ||| exists|ordinal: nat| #[trigger] first_fault(model_of(flat), ordinal, e@)
        },
        Ok(best) => {
            &&& keys_readable(model_of(flat))
            &&& answers_exactly(
                score,
                model_of(flat),
                tail,
                width as nat,
                k as nat,
                ranking::scored_views(best@),
            )
            &&& flat.header.row_count > 0 || tail.len() > 0 ==> call_ensures(late, (), false)
        },
    }
}

/// Scores every row that did not change and the tail, and returns the `k`
/// best. `late` tells whether the deadline has passed; it is asked every 4096
/// rows of the base and every 1024 rows of the tail.
pub fn exact_candidates<F: Fn(&Vec<u32>) -> u32, D: Fn() -> bool>(
    flat: &MappedFlatIndex,
    tail: &[DerivedAnnTailRow],
    width: usize,
    k: usize,
    score: F,
    late: D,
) -> (result: Result<Vec<ScoredSubject>, String>)
    requires
        flat.wf(),
        forall|v: Vec<u32>| #[trigger] call_requires(score, (&v,)),
        call_requires(late, ()),
    ensures
        scanned(score, late, *flat, tail@, width, k, result),
{
    let ghost file = model_of(*flat);
    let mut top = BoundedTopK::new(k);
    let ghost mut base: Seq<Scored> = Seq::empty();
    let rows: usize = flat.rows();
    let mut ordinal: usize = 0;
    while ordinal < rows
        invariant
            ordinal <= rows,
            rows == flat.header.row_count,
            rows == file.header.row_count,
            flat.wf(),
            file == model_of(*flat),
            top.wf(),
            top.want == k,
            forall|v: Vec<u32>| #[trigger] call_requires(score, (&v,)),
            call_requires(late, ()),
            ordinal > 0 ==> call_ensures(late, (), false),
            top.seen@ == base,
            rows_scored(score, file, file.standing_rows(ordinal as nat, tail@), base),
            forall|n: nat| n < ordinal ==> #[trigger] file.key(n) is Ok,
        decreases rows - ordinal,
    {
        if ordinal % 4096 == 0 {
            if late() {
                assert(asked_at_row(file, ordinal as nat));
                return Err("query_deadline_exceeded_during_flat_exact".to_owned());
            }
        }
        let key = match flat.key(ordinal) {
            Err(e) => {
                assert(first_fault(file, ordinal as nat, e@));
                return Err(e);
            },
            Ok(key) => key,
        };
        if !has_changed(tail, key) {
            let vector = match flat.vector(ordinal) {
                Err(e) => {
                    assert(false);
                    return Err(e);
                },
                Ok(vector) => vector,
            };
            let value: u32 = score(&vector);
            top.push(value, key);
            proof {
                let x = Scored { key: key@, score: value };
                assert(scores_as(score, file.vector(ordinal as nat), value));
                base = base.push(x);
            }
        }
        ordinal = ordinal + 1;
    }
    let ghost mut later: Seq<Scored> = Seq::empty();
    let mut t: usize = 0;
    assert(base + later =~= base);
    while t < tail.len()
        invariant
            t <= tail@.len(),
            top.wf(),
            top.want == k,
            forall|v: Vec<u32>| #[trigger] call_requires(score, (&v,)),
            call_requires(late, ()),
            rows > 0 || t > 0 ==> call_ensures(late, (), false),
            file == model_of(*flat),
            keys_readable(file),
            top.seen@ == base + later,
            tail_rows_scored(score, tail@, taking_part(tail@, width as nat, t as nat), later),
        decreases tail@.len() - t,
    {
        if t % 1024 == 0 {
            if late() {
                assert(asked_at_tail(file, tail@, t as nat));
                return Err("query_deadline_exceeded_during_flat_exact".to_owned());
            }
        }
        let row = &tail[t];
        match &row.vector {
            Some(vector) => {
                if vector.len() == width {
                    let value: u32 = score(vector);
                    top.push(value, &row.subject_key);
                    proof {
                        let x = Scored { key: row.subject_key@, score: value };
                        assert(scores_as(score, tail@[t as int].vector->0@, value));
                        assert((base + later).push(x) =~= base + later.push(x));
                        later = later.push(x);
                    }
                }
            },
            None => {},
        }
        t = t + 1;
    }
    let best = top.into_sorted();
    proof {
        assert(rows_scored(
            score,
            file,
            file.standing_rows(file.header.row_count as nat, tail@),
            base,
        ));
        assert(tail_rows_scored(
            score,
            tail@,
            taking_part(tail@, width as nat, tail@.len()),
            later,
        ));
    }
    Ok(best)
}

/// No row of the tail is about this subject.
pub open spec fn untouched(tail: Seq<DerivedAnnTailRow>, key: Seq<char>) -> bool {
    forall|t: int| 0 <= t < tail.len() ==> (#[trigger] tail[t]).subject_key@ != key
}

/// The score comes from a vector of the tail: that of a row about this subject,
/// of the width that is searched for.
pub open spec fn scored_by_tail<F: Fn(&Vec<u32>) -> u32>(
    score: F,
    tail: Seq<DerivedAnnTailRow>,
    width: nat,
    key: Seq<char>,
    value: u32,
) -> bool {
    exists|t: int, v: Vec<u32>|
        #![trigger tail[t], call_ensures(score, (&v,), value)]
        0 <= t < tail.len() && tail[t].subject_key@ == key && tail[t].vector is Some
            && tail[t].vector->0@ == v@ && v@.len() == width && call_ensures(score, (&v,), value)
}

/// The score comes from the vector of a row of the generation about this
/// subject.
pub open spec fn scored_by_row<F: Fn(&Vec<u32>) -> u32>(
    score: F,
    file: FlatModel,
    ordinal: nat,
    key: Seq<char>,
    value: u32,
) -> bool {
    exists|v: Vec<u32>|
        ordinal < file.header.row_count && file.key(ordinal) == Ok::<Seq<char>, Seq<char>>(key)
            && v@ == file.vector(ordinal) && #[trigger] call_ensures(score, (&v,), value)
}

/// The result is listed, or the answer is full of results that are not worse.
pub open spec fn listed_or_beaten(best: Seq<Scored>, k: nat, x: Scored) -> bool {
    best.contains(x) || (best.len() == k && forall|r: int|
        0 <= r < best.len() ==> !ranking::better(x, #[trigger] best[r]))
}

proof fn lemma_standing_rows(file: FlatModel, n: nat, tail: Seq<DerivedAnnTailRow>)
    ensures
        ({
            let rows = file.standing_rows(n, tail);
            &&& forall|i: int|
                0 <= i < rows.len() ==> {
                    &&& (#[trigger] rows[i]).1 < n
                    &&& rows[i].0 == file.key(rows[i].1)->Ok_0
                    &&& untouched(tail, rows[i].0)
                }
            &&& forall|i: int, j: int|
                0 <= i < j < rows.len() ==> (#[trigger] rows[i]).1 < (#[trigger] rows[j]).1
            &&& forall|ordinal: nat|
                ordinal < n && untouched(tail, #[trigger] file.key(ordinal)->Ok_0)
                    ==> rows.contains((file.key(ordinal)->Ok_0, ordinal))
        }),
    decreases n,
{
    if n > 0 {
        lemma_standing_rows(file, (n - 1) as nat, tail);
        let rest = file.standing_rows((n - 1) as nat, tail);
        let rows = file.standing_rows(n, tail);
        let key = file.key((n - 1) as nat)->Ok_0;
        assert(changed(tail, key) == !untouched(tail, key));
        assert forall|ordinal: nat|
            ordinal < n && untouched(tail, #[trigger] file.key(ordinal)->Ok_0) implies rows.contains(
            (file.key(ordinal)->Ok_0, ordinal),
        ) by {
            if ordinal < n - 1 {
                let x = (file.key(ordinal)->Ok_0, ordinal);
                assert(rest.contains(x));
                let i = choose|i: int| 0 <= i < rest.len() && rest[i] == x;
                assert(rows[i] == x);
            } else {
                assert(rows[rows.len() - 1] == (key, ordinal));
            }
        }
    }
}

proof fn lemma_taking_part(tail: Seq<DerivedAnnTailRow>, width: nat, n: nat)
    requires
        n <= tail.len(),
    ensures
        ({
            let rows = taking_part(tail, width, n);
            &&& forall|i: int|
                0 <= i < rows.len() ==> 0 <= (#[trigger] rows[i]) < n && takes_part(
                    tail[rows[i]],
                    width,
                )
            &&& forall|i: int, j: int|
                0 <= i < j < rows.len() ==> (#[trigger] rows[i]) < (#[trigger] rows[j])
            &&& forall|t: int|
                0 <= t < n && takes_part(#[trigger] tail[t], width) ==> rows.contains(t)
        }),
    decreases n,
{
    if n > 0 {
        lemma_taking_part(tail, width, (n - 1) as nat);
        let rest = taking_part(tail, width, (n - 1) as nat);
        let rows = taking_part(tail, width, n);
        assert forall|t: int| 0 <= t < n && takes_part(#[trigger] tail[t], width) implies rows.contains(
            t,
        ) by {
            if t < n - 1 {
                assert(rest.contains(t));
                let i = choose|i: int| 0 <= i < rest.len() && rest[i] == t;
                assert(rows[i] == t);
            } else {
                assert(rows[rows.len() - 1] == t);
            }
        }
    }
}

/// An exact search ranks every subject by what it is now. A subject with a row
/// in the tail, a vector or a deletion, gets no score but that of a vector of
/// the tail; any other gets that of its row in the generation. Every row of the
/// generation that the tail does not touch, and every vector of the tail, is
/// listed or beaten by a full answer; and the answer is in order.
pub proof fn law_exact_search_is_current<F: Fn(&Vec<u32>) -> u32, D: Fn() -> bool>(
    score: F,
    late: D,
    flat: MappedFlatIndex,
    tail: Seq<DerivedAnnTailRow>,
    width: usize,
    k: usize,
    best: Vec<ScoredSubject>,
)
    requires
        scanned(score, late, flat, tail, width, k, Ok::<Vec<ScoredSubject>, String>(best)),
    ensures
        best@.len() <= k,
        forall|r: int, t: int|
            0 <= r < best@.len() && 0 <= t < tail.len() && (#[trigger] best@[r]).subject_key@ == (
            #[trigger] tail[t]).subject_key@ ==> scored_by_tail(
                score,
                tail,
                width as nat,
                best@[r].subject_key@,
                best@[r].score,
            ),
        forall|r: int|
            0 <= r < best@.len() && untouched(tail, (#[trigger] best@[r]).subject_key@)
                ==> exists|ordinal: nat| #[trigger]
                scored_by_row(
                    score,
                    model_of(flat),
                    ordinal,
                    best@[r].subject_key@,
                    best@[r].score,
                ),
        forall|i: int, j: int|
            0 <= i < j < best@.len() ==> !ranking::better(
                (#[trigger] best@[j])@,
                (#[trigger] best@[i])@,
            ),
        forall|ordinal: nat|
            ordinal < flat.header@.row_count && untouched(
                tail,
                (#[trigger] model_of(flat).key(ordinal))->Ok_0,
            ) ==> exists|value: u32|
                {
                    &&& #[trigger] scored_by_row(
                        score,
                        model_of(flat),
                        ordinal,
                        model_of(flat).key(ordinal)->Ok_0,
                        value,
                    )
                    &&& listed_or_beaten(
                        ranking::scored_views(best@),
                        k as nat,
                        Scored { key: model_of(flat).key(ordinal)->Ok_0, score: value },
                    )
                },
        forall|t: int|
            0 <= t < tail.len() && (#[trigger] tail[t]).vector is Some
                && tail[t].vector->0@.len() == width ==> exists|value: u32|
                {
                    &&& #[trigger] scores_as(score, tail[t].vector->0@, value)
                    &&& listed_or_beaten(
                        ranking::scored_views(best@),
                        k as nat,
                        Scored { key: tail[t].subject_key@, score: value },
                    )
                },
{
    let file = model_of(flat);
    let found = ranking::scored_views(best@);
    let rows = file.standing_rows(file.header.row_count as nat, tail);
    let live = taking_part(tail, width as nat, tail.len());
    let (base, later) = choose|base: Seq<Scored>, later: Seq<Scored>|
        #![trigger rows_scored(score, file, rows, base), tail_rows_scored(score, tail, live, later)]
        {
            &&& rows_scored(score, file, rows, base)
            &&& tail_rows_scored(score, tail, live, later)
            &&& found == ranking::first_of(ranking::ranked(base + later), k as nat)
        };
    let all = base + later;
    lemma_standing_rows(file, file.header.row_count as nat, tail);
    lemma_taking_part(tail, width as nat, tail.len());
    ranking::law_the_best_are_kept(all, k as nat);
    assert forall|r: int| 0 <= r < best@.len() implies all.contains((#[trigger] best@[r])@) by {
        assert(found[r] == best@[r]@);
    }
    assert forall|i: int| 0 <= i < base.len() implies scored_by_row(
        score,
        file,
        rows[i].1,
        (#[trigger] base[i]).key,
        base[i].score,
    ) by {
        assert(file.key(rows[i].1) is Ok);
    }
    assert forall|i: int| 0 <= i < later.len() implies scored_by_tail(
        score,
        tail,
        width as nat,
        (#[trigger] later[i]).key,
        later[i].score,
    ) by {
        let t = live[i];
        assert(takes_part(tail[t], width as nat));
        let v = choose|v: Vec<u32>|
            v@ == tail[t].vector->0@ && #[trigger] call_ensures(score, (&v,), later[i].score);
        assert(tail[t].vector->0@ == v@ && call_ensures(score, (&v,), later[i].score));
    }
    assert forall|r: int, t: int|
        0 <= r < best@.len() && 0 <= t < tail.len() && (#[trigger] best@[r]).subject_key@ == (
        #[trigger] tail[t]).subject_key@ implies scored_by_tail(
        score,
        tail,
        width as nat,
        best@[r].subject_key@,
        best@[r].score,
    ) by {
        let x = best@[r]@;
        assert(all.contains(x));
        let i = choose|i: int| 0 <= i < all.len() && all[i] == x;
        if i < base.len() {
            assert(base[i] == x);
            assert(untouched(tail, rows[i].0));
        } else {
            assert(later[i - base.len()] == x);
        }
    }
    assert forall|r: int|
        0 <= r < best@.len() && untouched(tail, (#[trigger] best@[r]).subject_key@) implies exists|
        ordinal: nat,
    | #[trigger] scored_by_row(score, file, ordinal, best@[r].subject_key@, best@[r].score) by {
        let x = best@[r]@;
        assert(all.contains(x));
        let i = choose|i: int| 0 <= i < all.len() && all[i] == x;
        if i < base.len() {
            assert(base[i] == x);
            assert(scored_by_row(score, file, rows[i].1, x.key, x.score));
        } else {
            assert(later[i - base.len()] == x);
            assert(x.key == tail[live[i - base.len()]].subject_key@);
        }
    }
    assert forall|i: int, j: int| 0 <= i < j < best@.len() implies !ranking::better(
        (#[trigger] best@[j])@,
        (#[trigger] best@[i])@,
    ) by {
        assert(found[i] == best@[i]@ && found[j] == best@[j]@);
    }
    assert forall|ordinal: nat|
        ordinal < flat.header@.row_count && untouched(
            tail,
            (#[trigger] file.key(ordinal))->Ok_0,
        ) implies exists|value: u32|
        {
            &&& #[trigger] scored_by_row(score, file, ordinal, file.key(ordinal)->Ok_0, value)
            &&& listed_or_beaten(
                found,
                k as nat,
                Scored { key: file.key(ordinal)->Ok_0, score: value },
            )
        } by {
        let key = file.key(ordinal)->Ok_0;
        assert(rows.contains((key, ordinal)));
        let i = choose|i: int| 0 <= i < rows.len() && rows[i] == (key, ordinal);
        assert(base[i].key == key);
        assert(all[i] == base[i]);
        assert(all.contains(base[i]));
        assert(base[i] == (Scored { key, score: base[i].score }));
        assert(scored_by_row(score, file, ordinal, key, base[i].score));
    }
    assert forall|t: int|
        0 <= t < tail.len() && (#[trigger] tail[t]).vector is Some && tail[t].vector->0@.len()
            == width implies exists|value: u32|
        {
            &&& #[trigger] scores_as(score, tail[t].vector->0@, value)
            &&& listed_or_beaten(
                found,
                k as nat,
                Scored { key: tail[t].subject_key@, score: value },
            )
        } by {
        assert(takes_part(tail[t], width as nat));
        assert(live.contains(t));
        let i = choose|i: int| 0 <= i < live.len() && live[i] == t;
        assert(all[base.len() + i] == later[i]);
        assert(all.contains(later[i]));
        assert(later[i] == (Scored { key: tail[t].subject_key@, score: later[i].score }));
        assert(scores_as(score, tail[t].vector->0@, later[i].score));
    }
}

/// Where no subject has two rows in the generation, nor two in the tail, no
/// subject occurs twice in the answer to an exact search, and one that was
/// deleted does not occur.
pub proof fn law_exact_search_lists_subjects_once<F: Fn(&Vec<u32>) -> u32, D: Fn() -> bool>(
    score: F,
    late: D,
    flat: MappedFlatIndex,
    tail: Seq<DerivedAnnTailRow>,
    width: usize,
    k: usize,
    best: Vec<ScoredSubject>,
)
    requires
        scanned(score, late, flat, tail, width, k, Ok::<Vec<ScoredSubject>, String>(best)),
        forall|a: nat, b: nat|
            a < b < flat.header@.row_count ==> #[trigger] model_of(flat).key(a)
                != #[trigger] model_of(flat).key(b),
        forall|a: int, b: int|
            0 <= a < b < tail.len() ==> (#[trigger] tail[a]).subject_key@ != (
            #[trigger] tail[b]).subject_key@,
    ensures
        forall|i: int, j: int|
            0 <= i < j < best@.len() ==> (#[trigger] best@[i]).subject_key@ != (
            #[trigger] best@[j]).subject_key@,
        forall|r: int, t: int|
            0 <= r < best@.len() && 0 <= t < tail.len() && (#[trigger] tail[t]).vector is None
                ==> (#[trigger] best@[r]).subject_key@ != tail[t].subject_key@,
{
    let file = model_of(flat);
    let found = ranking::scored_views(best@);
    let rows = file.standing_rows(file.header.row_count as nat, tail);
    let live = taking_part(tail, width as nat, tail.len());
    let (base, later) = choose|base: Seq<Scored>, later: Seq<Scored>|
        #![trigger rows_scored(score, file, rows, base), tail_rows_scored(score, tail, live, later)]
        {
            &&& rows_scored(score, file, rows, base)
            &&& tail_rows_scored(score, tail, live, later)
            &&& found == ranking::first_of(ranking::ranked(base + later), k as nat)
        };
    let all = base + later;
    lemma_standing_rows(file, file.header.row_count as nat, tail);
    lemma_taking_part(tail, width as nat, tail.len());
    ranking::law_the_best_are_kept(all, k as nat);
    assert forall|i: int, j: int| 0 <= i < j < all.len() implies (#[trigger] all[i]).key != (
    #[trigger] all[j]).key by {
        if j < base.len() {
            assert(all[i] == base[i] && all[j] == base[j]);
            assert(rows[i].1 < rows[j].1);
            assert(file.key(rows[i].1) is Ok && file.key(rows[j].1) is Ok);
            assert(file.key(rows[i].1) != file.key(rows[j].1));
        } else if i >= base.len() {
            let (a, b) = (live[i - base.len()], live[j - base.len()]);
            assert(all[i] == later[i - base.len()] && all[j] == later[j - base.len()]);
            assert(a < b);
            assert(tail[a].subject_key@ != tail[b].subject_key@);
        } else {
            assert(all[i] == base[i] && all[j] == later[j - base.len()]);
            assert(untouched(tail, rows[i].0));
            assert(tail[live[j - base.len()]].subject_key@ != rows[i].0);
        }
    }
    assert forall|i: int, j: int| 0 <= i < j < best@.len() implies (
    #[trigger] best@[i]).subject_key@ != (#[trigger] best@[j]).subject_key@ by {
        assert(found[i] == best@[i]@ && found[j] == best@[j]@);
    }
    law_exact_search_is_current(score, late, flat, tail, width, k, best);
    assert forall|r: int, t: int|
        0 <= r < best@.len() && 0 <= t < tail.len() && (#[trigger] tail[t]).vector is None implies (
    #[trigger] best@[r]).subject_key@ != tail[t].subject_key@ by {
        let key = best@[r].subject_key@;
        let value = best@[r].score;
        if key == tail[t].subject_key@ {
            assert(scored_by_tail(score, tail, width as nat, key, value));
            let (s, v) = choose|s: int, v: Vec<u32>|
                #![trigger tail[s], call_ensures(score, (&v,), value)]
                0 <= s < tail.len() && tail[s].subject_key@ == key && tail[s].vector is Some
                    && tail[s].vector->0@ == v@ && v@.len() == width && call_ensures(
                    score,
                    (&v,),
                    value,
                );
            if s < t {
                assert(tail[s].subject_key@ != tail[t].subject_key@);
            } else if t < s {
                assert(tail[t].subject_key@ != tail[s].subject_key@);
            }
        }
    }
}

/// The answer does not depend on the order in which equal maps are listed: two
/// lists of one map have the same ranking.
pub proof fn law_ranking_ignores_listing(
    a: Seq<Scored>,
    b: Seq<Scored>,
    map: Map<Seq<char>, u32>,
)
    requires
        lists(a, map),
        lists(b, map),
    ensures
        ranking::ranked(a) == ranking::ranked(b),
{
    lemma_lists_no_duplicates(a, map);
    lemma_lists_no_duplicates(b, map);
    a.to_multiset_ensures();
    b.to_multiset_ensures();
    a.lemma_multiset_has_no_duplicates();
    b.lemma_multiset_has_no_duplicates();
    assert forall|x: Scored| a.to_multiset().count(x) == b.to_multiset().count(x) by {
        lemma_listed(a, map, x);
        lemma_listed(b, map, x);
    }
    assert(a.to_multiset() =~= b.to_multiset());
    ranking::law_ranking_is_unique(a, b);
}

proof fn lemma_last_row_decides(
    map: Map<Seq<char>, u32>,
    tail: Seq<DerivedAnnTailRow>,
    width: nat,
    scores: Seq<u32>,
    n: nat,
    at: int,
)
    requires
        0 <= at < n <= tail.len(),
        forall|j: int|
            at < j < tail.len() ==> (#[trigger] tail[j]).subject_key@ != tail[at].subject_key@,
    ensures
        ({
            let after = with_tail(map, tail, width, scores, n);
            let key = tail[at].subject_key@;
            &&& tail[at].vector is None ==> !after.contains_key(key)
            &&& takes_part(tail[at], width) ==> after.contains_key(key) && after[key] == scores[at]
        }),
    decreases n,
{
    if at < n - 1 {
        lemma_last_row_decides(map, tail, width, scores, (n - 1) as nat, at);
        assert(tail[n - 1].subject_key@ != tail[at].subject_key@);
    }
}

proof fn lemma_standing(file: FlatModel, keys: Seq<u64>, tail: Seq<DerivedAnnTailRow>)
    ensures
        ({
            let rows = file.standing(keys, tail);
            &&& forall|i: int|
                0 <= i < rows.len() ==> untouched(tail, (#[trigger] rows[i]).0) && exists|m: int|
                    0 <= m < keys.len() && rows[i] == (
                        file.subject(#[trigger] keys[m])->Ok_0,
                        (keys[m] - 1) as nat,
                    )
            &&& forall|m: int|
                0 <= m < keys.len() && untouched(tail, file.subject(#[trigger] keys[m])->Ok_0)
                    ==> rows.contains((file.subject(keys[m])->Ok_0, (keys[m] - 1) as nat))
        }),
    decreases keys.len(),
{
    if keys.len() > 0 {
        let head = keys.drop_last();
        lemma_standing(file, head, tail);
        let rest = file.standing(head, tail);
        let rows = file.standing(keys, tail);
        let key = file.subject(keys.last())->Ok_0;
        assert(changed(tail, key) == !untouched(tail, key));
        assert forall|i: int| 0 <= i < rows.len() implies untouched(tail, (#[trigger] rows[i]).0)
            && exists|m: int|
            0 <= m < keys.len() && rows[i] == (
                file.subject(#[trigger] keys[m])->Ok_0,
                (keys[m] - 1) as nat,
            ) by {
            if i < rest.len() {
                assert(rows[i] == rest[i]);
                let m = choose|m: int|
                    0 <= m < head.len() && rest[i] == (
                        file.subject(#[trigger] head[m])->Ok_0,
                        (head[m] - 1) as nat,
                    );
                assert(keys[m] == head[m]);
            } else {
                assert(keys[keys.len() - 1] == keys.last());
            }
        }
        assert forall|m: int|
            0 <= m < keys.len() && untouched(
                tail,
                file.subject(#[trigger] keys[m])->Ok_0,
            ) implies rows.contains((file.subject(keys[m])->Ok_0, (keys[m] - 1) as nat)) by {
            let x = (file.subject(keys[m])->Ok_0, (keys[m] - 1) as nat);
            if m < head.len() {
                assert(head[m] == keys[m]);
                assert(rest.contains(x));
                let i = choose|i: int| 0 <= i < rest.len() && rest[i] == x;
                assert(rows[i] == x);
            } else {
                assert(rows[rows.len() - 1] == x);
            }
        }
    }
}

proof fn lemma_with_results(results: Seq<Scored>)
    ensures
        ({
            let map = with_results(Map::empty(), results);
            &&& forall|key: Seq<char>| #[trigger]
                map.contains_key(key) ==> results.contains(Scored { key, score: map[key] })
            &&& forall|i: int|
                0 <= i < results.len() ==> map.contains_key((#[trigger] results[i]).key)
        }),
    decreases results.len(),
{
    if results.len() > 0 {
        let head = results.drop_last();
        lemma_with_results(head);
        let map = with_results(Map::empty(), results);
        let before = with_results(Map::empty(), head);
        assert forall|key: Seq<char>| #[trigger] map.contains_key(key) implies results.contains(
            Scored { key, score: map[key] },
        ) by {
            let x = Scored { key, score: map[key] };
            if key == results.last().key {
                assert(results[results.len() - 1] == x);
            } else {
                assert(before.contains_key(key));
                assert(head.contains(x));
                let i = choose|i: int| 0 <= i < head.len() && head[i] == x;
                assert(results[i] == x);
            }
        }
        assert forall|i: int| 0 <= i < results.len() implies map.contains_key(
            (#[trigger] results[i]).key,
        ) by {
            if i < head.len() {
                assert(head[i] == results[i]);
            }
        }
    }
}

proof fn lemma_with_tail(
    map: Map<Seq<char>, u32>,
    tail: Seq<DerivedAnnTailRow>,
    width: nat,
    scores: Seq<u32>,
    n: nat,
    key: Seq<char>,
)
    requires
        n <= tail.len(),
    ensures
        ({
            let after = with_tail(map, tail, width, scores, n);
            &&& untouched(tail, key) ==> after.contains_key(key) == map.contains_key(key)
                && after[key] == map[key]
            &&& after.contains_key(key) ==> (map.contains_key(key) && after[key] == map[key])
                || exists|t: int|
                0 <= t < n && (#[trigger] tail[t]).subject_key@ == key && takes_part(tail[t], width)
                    && after[key] == scores[t]
        }),
    decreases n,
{
    if n > 0 {
        lemma_with_tail(map, tail, width, scores, (n - 1) as nat, key);
        let row = tail[n - 1];
        assert(untouched(tail, key) ==> row.subject_key@ != key);
    }
}

/// A search through the graph ranks every subject by what it is now, each once:
/// a subject with a row in the tail gets no score but that of a vector of the
/// tail, any other that of a row that the graph named. What the graph named and
/// the tail does not touch, and every subject whose last row in the tail is a
/// vector, is listed or beaten by a full answer; and the answer is in order.
pub proof fn law_search_is_current<F: Fn(&Vec<u32>) -> u32>(
    score: F,
    file: FlatModel,
    keys: Seq<u64>,
    tail: Seq<DerivedAnnTailRow>,
    width: nat,
    k: nat,
    result: Seq<Scored>,
)
    requires
        answers(score, file, keys, tail, width, k, result),
    ensures
        result.len() <= k,
        forall|i: int, j: int|
            0 <= i < j < result.len() ==> (#[trigger] result[i]).key != (#[trigger] result[j]).key
                && !ranking::better(result[j], result[i]),
        forall|r: int, t: int|
            0 <= r < result.len() && 0 <= t < tail.len() && (#[trigger] result[r]).key == (
            #[trigger] tail[t]).subject_key@ ==> scored_by_tail(
                score,
                tail,
                width,
                result[r].key,
                result[r].score,
            ),
        forall|r: int|
            0 <= r < result.len() && untouched(tail, (#[trigger] result[r]).key) ==> exists|m: int|
                0 <= m < keys.len() && file.subject(#[trigger] keys[m])->Ok_0 == result[r].key
                    && scores_as(score, file.vector((keys[m] - 1) as nat), result[r].score),
        forall|m: int|
            0 <= m < keys.len() && untouched(tail, file.subject(#[trigger] keys[m])->Ok_0)
                ==> exists|value: u32| #[trigger]
                listed_or_beaten(
                    result,
                    k,
                    Scored { key: file.subject(keys[m])->Ok_0, score: value },
                ),
        forall|t: int|
            0 <= t < tail.len() && (#[trigger] tail[t]).vector is Some
                && tail[t].vector->0@.len() == width && (forall|j: int|
                t < j < tail.len() ==> (#[trigger] tail[j]).subject_key@ != tail[t].subject_key@)
                ==> exists|value: u32|
                {
                    &&& #[trigger] scores_as(score, tail[t].vector->0@, value)
                    &&& listed_or_beaten(
                        result,
                        k,
                        Scored { key: tail[t].subject_key@, score: value },
                    )
                },
{
    let rows = file.standing(keys, tail);
    let (base, tail_scores, entries) = choose|
        base: Seq<Scored>,
        tail_scores: Seq<u32>,
        entries: Seq<Scored>,
    |
        #![trigger rows_scored(score, file, rows, base), tail_scored(
            score,
            tail,
            width,
            tail_scores,
        ), ranking::ranked(entries)]
        {
            &&& rows_scored(score, file, rows, base)
            &&& tail_scored(score, tail, width, tail_scores)
            &&& lists(
                entries,
                with_tail(
                    with_results(Map::empty(), base),
                    tail,
                    width,
                    tail_scores,
                    tail.len(),
                ),
            )
            &&& result == ranking::first_of(ranking::ranked(entries), k)
        };
    let found = with_results(Map::empty(), base);
    let map = with_tail(found, tail, width, tail_scores, tail.len());
    lemma_standing(file, keys, tail);
    lemma_with_results(base);
    ranking::law_the_best_are_kept(entries, k);
    assert forall|r: int| 0 <= r < result.len() implies map.contains_key(
        (#[trigger] result[r]).key,
    ) && map[result[r].key] == result[r].score by {
        assert(entries.contains(result[r]));
        let e = choose|e: int| 0 <= e < entries.len() && entries[e] == result[r];
        assert(map.contains_key(entries[e].key));
    }
    assert forall|key: Seq<char>| #[trigger] map.contains_key(key) implies listed_or_beaten(
        result,
        k,
        Scored { key, score: map[key] },
    ) by {
        let e = choose|e: int| 0 <= e < entries.len() && (#[trigger] entries[e]).key == key;
        assert(entries[e] == (Scored { key, score: map[key] }));
        assert(entries.contains(entries[e]));
    }
    assert forall|key: Seq<char>| #[trigger] found.contains_key(key) implies untouched(
        tail,
        key,
    ) by {
        let x = Scored { key, score: found[key] };
        assert(base.contains(x));
        let i = choose|i: int| 0 <= i < base.len() && base[i] == x;
        assert(untouched(tail, rows[i].0));
    }
    assert forall|r: int, t: int|
        0 <= r < result.len() && 0 <= t < tail.len() && (#[trigger] result[r]).key == (
        #[trigger] tail[t]).subject_key@ implies scored_by_tail(
        score,
        tail,
        width,
        result[r].key,
        result[r].score,
    ) by {
        let key = result[r].key;
        let value = result[r].score;
        lemma_with_tail(found, tail, width, tail_scores, tail.len(), key);
        assert(!untouched(tail, key));
        assert(!found.contains_key(key));
        let s = choose|s: int|
            0 <= s < tail.len() && (#[trigger] tail[s]).subject_key@ == key && takes_part(
                tail[s],
                width,
            ) && map[key] == tail_scores[s];
        assert(scores_as(score, tail[s].vector->0@, tail_scores[s]));
        let v = choose|v: Vec<u32>|
            v@ == tail[s].vector->0@ && #[trigger] call_ensures(score, (&v,), value);
        assert(tail[s].vector->0@ == v@ && call_ensures(score, (&v,), value));
    }
    assert forall|r: int|
        0 <= r < result.len() && untouched(tail, (#[trigger] result[r]).key) implies exists|m: int|
        0 <= m < keys.len() && file.subject(#[trigger] keys[m])->Ok_0 == result[r].key && scores_as(
            score,
            file.vector((keys[m] - 1) as nat),
            result[r].score,
        ) by {
        let key = result[r].key;
        lemma_with_tail(found, tail, width, tail_scores, tail.len(), key);
        assert(base.contains(result[r]));
        let i = choose|i: int| 0 <= i < base.len() && base[i] == result[r];
        let m = choose|m: int|
            0 <= m < keys.len() && rows[i] == (
                file.subject(#[trigger] keys[m])->Ok_0,
                (keys[m] - 1) as nat,
            );
        assert(scores_as(score, file.vector(rows[i].1), base[i].score));
    }
    assert forall|m: int|
        0 <= m < keys.len() && untouched(
            tail,
            file.subject(#[trigger] keys[m])->Ok_0,
        ) implies exists|value: u32| #[trigger]
        listed_or_beaten(
            result,
            k,
            Scored { key: file.subject(keys[m])->Ok_0, score: value },
        ) by {
        let key = file.subject(keys[m])->Ok_0;
        let x = (key, (keys[m] - 1) as nat);
        assert(rows.contains(x));
        let i = choose|i: int| 0 <= i < rows.len() && rows[i] == x;
        assert(base[i].key == key);
        assert(found.contains_key(key));
        lemma_with_tail(found, tail, width, tail_scores, tail.len(), key);
        assert(map.contains_key(key));
        assert(listed_or_beaten(result, k, Scored { key, score: map[key] }));
    }
    assert forall|t: int|
        0 <= t < tail.len() && (#[trigger] tail[t]).vector is Some && tail[t].vector->0@.len()
            == width && (forall|j: int|
            t < j < tail.len() ==> (#[trigger] tail[j]).subject_key@ != tail[t].subject_key@)
            implies exists|value: u32|
        {
            &&& #[trigger] scores_as(score, tail[t].vector->0@, value)
            &&& listed_or_beaten(result, k, Scored { key: tail[t].subject_key@, score: value })
        } by {
        assert(takes_part(tail[t], width));
        lemma_last_row_decides(found, tail, width, tail_scores, tail.len(), t);
        assert(map.contains_key(tail[t].subject_key@));
        assert(scores_as(score, tail[t].vector->0@, tail_scores[t]));
    }
}

/// A subject whose last row in the tail is a deletion is in no answer, whatever
/// the generation holds of it.
pub proof fn law_deleted_subjects_are_not_found<F: Fn(&Vec<u32>) -> u32>(
    score: F,
    file: FlatModel,
    keys: Seq<u64>,
    tail: Seq<DerivedAnnTailRow>,
    width: nat,
    k: nat,
    result: Seq<Scored>,
    at: int,
)
    requires
        answers(score, file, keys, tail, width, k, result),
        0 <= at < tail.len(),
        tail[at].vector is None,
        forall|j: int|
            at < j < tail.len() ==> (#[trigger] tail[j]).subject_key@ != tail[at].subject_key@,
    ensures
        forall|i: int|
            0 <= i < result.len() ==> (#[trigger] result[i]).key != tail[at].subject_key@,
{
    let (base, tail_scores, entries) = choose|
        base: Seq<Scored>,
        tail_scores: Seq<u32>,
        entries: Seq<Scored>,
    |
        #![trigger rows_scored(score, file, file.standing(keys, tail), base), tail_scored(
            score,
            tail,
            width,
            tail_scores,
        ), ranking::ranked(entries)]
        {
            &&& rows_scored(score, file, file.standing(keys, tail), base)
            &&& tail_scored(score, tail, width, tail_scores)
            &&& lists(
                entries,
                with_tail(
                    with_results(Map::empty(), base),
                    tail,
                    width,
                    tail_scores,
                    tail.len(),
                ),
            )
            &&& result == ranking::first_of(ranking::ranked(entries), k)
        };
    let found = with_results(Map::empty(), base);
    let map = with_tail(found, tail, width, tail_scores, tail.len());
    lemma_last_row_decides(found, tail, width, tail_scores, tail.len(), at);
    ranking::law_ranked_is_a_sorted_copy(entries);
    let ranked = ranking::ranked(entries);
    entries.to_multiset_ensures();
    ranked.to_multiset_ensures();
    assert forall|i: int| 0 <= i < result.len() implies (#[trigger] result[i]).key
        != tail[at].subject_key@ by {
        assert(ranked.contains(result[i])) by {
            assert(ranked[i] == result[i]);
        }
        assert(ranked.to_multiset().count(result[i]) > 0);
        assert(entries.contains(result[i]));
        let j = choose|j: int| 0 <= j < entries.len() && entries[j] == result[i];
        assert(map.contains_key(entries[j].key));
    }
}

proof fn lemma_lists_no_duplicates(a: Seq<Scored>, map: Map<Seq<char>, u32>)
    requires
        lists(a, map),
    ensures
        a.no_duplicates(),
{
}

proof fn lemma_listed(a: Seq<Scored>, map: Map<Seq<char>, u32>, x: Scored)
    requires
        lists(a, map),
        a.no_duplicates(),
    ensures
        a.contains(x) == (map.contains_key(x.key) && map[x.key] == x.score),
        a.to_multiset().count(x) == if a.contains(x) {
            1nat
        } else {
            0
        },
{
    a.to_multiset_ensures();
    a.lemma_multiset_has_no_duplicates();
    if map.contains_key(x.key) && map[x.key] == x.score {
        let i = choose|i: int| 0 <= i < a.len() && (#[trigger] a[i]).key == x.key;
        assert(a[i] == x);
    }
    if a.contains(x) {
        assert(a.to_multiset().contains(x));
    }
}

/// The rows that the tail was loaded with.
pub open spec fn tail_loaded<T: Fn(u64) -> Result<Vec<DerivedAnnTailRow>, String>>(
    load_tail: T,
    epoch: u64,
    tail: Result<Vec<DerivedAnnTailRow>, String>,
) -> bool {
    call_ensures(load_tail, (epoch,), tail)
}

/// The keys that the graph was searched with.
pub open spec fn graph_searched<S: Fn(usize) -> Result<Vec<u64>, String>>(
    search: S,
    count: usize,
    keys: Result<Vec<u64>, String>,
) -> bool {
    call_ensures(search, (count,), keys)
}

/// The query can be answered from the generation.
pub open spec fn answerable(
    state: ClipAnnState,
    enabled: bool,
    data_dir: Seq<Seq<char>>,
    width: usize,
    k: usize,
) -> bool {
    enabled && width == CLIP_DIMENSIONS && k != 0 && clip_ann::searchable(state, data_dir)
}

impl ClipAnnState {
    /// What a search in the graph comes to, with the rows that are newer.
    pub open spec fn queried<T, S, F>(
        &self,
        enabled: bool,
        data_dir: &PathParts,
        flat: &MappedFlatIndex,
        width: usize,
        k: usize,
        load_tail: T,
        search: S,
        score: F,
        result: Result<Option<ClipAnnQuery>, String>,
    ) -> bool where
        T: Fn(u64) -> Result<Vec<DerivedAnnTailRow>, String>,
        S: Fn(usize) -> Result<Vec<u64>, String>,
        F: Fn(&Vec<u32>) -> u32,

    {
        if !answerable(*self, enabled, data_dir@, width, k) {
            result == Ok::<Option<ClipAnnQuery>, String>(None)
        } else {
            let manifest = self.generation->0.manifest;
            exists|tail: Result<Vec<DerivedAnnTailRow>, String>| #[trigger]
                tail_loaded(load_tail, manifest.covered_epoch, tail) && match tail {
                    Err(e) => if text::begins(e@, "ann_tail_too_large:"@) {
                        result == Ok::<Option<ClipAnnQuery>, String>(None)
                    } else {
                        result == Err::<Option<ClipAnnQuery>, String>(e)
                    },
                    Ok(rows) => searched(
                        search,
                        score,
                        *flat,
                        candidate_count(manifest.row_count as usize as int, k as int) as usize,
                        rows@,
                        width,
                        k,
                        result,
                    ),
                }
        }
    }

    /// What a search through all rows comes to, with those that are newer.
    pub open spec fn exactly_queried<T, F, D>(
        &self,
        enabled: bool,
        data_dir: &PathParts,
        flat: &MappedFlatIndex,
        width: usize,
        k: usize,
        load_tail: T,
        score: F,
        late: D,
        result: Result<Option<ClipAnnQuery>, String>,
    ) -> bool where
        T: Fn(u64) -> Result<Vec<DerivedAnnTailRow>, String>,
        F: Fn(&Vec<u32>) -> u32,
        D: Fn() -> bool,

    {
        if !answerable(*self, enabled, data_dir@, width, k) {
            result == Ok::<Option<ClipAnnQuery>, String>(None)
        } else {
            exists|tail: Result<Vec<DerivedAnnTailRow>, String>| #[trigger]
                tail_loaded(load_tail, self.generation->0.manifest.covered_epoch, tail)
                    && match tail {
                    Err(_) => result == Ok::<Option<ClipAnnQuery>, String>(None),
                    Ok(rows) => match result {
                        Ok(None) => false,
                        Ok(Some(answer)) => {
                            &&& answer.mode@ == "flat_exact"@
                            &&& answer.tail_rows == rows@.len()
                            &&& scanned(
                                score,
                                late,
                                *flat,
                                rows@,
                                width,
                                k,
                                Ok::<Vec<ScoredSubject>, String>(answer.candidates),
                            )
                        },
                        Err(e) => scanned(
                            score,
                            late,
                            *flat,
                            rows@,
                            width,
                            k,
                            Err::<Vec<ScoredSubject>, String>(e),
                        ),
                    },
                }
        }
    }

    /// Searches in the graph, and in the rows that are newer than the
    /// generation. `load_tail` gives the rows after an epoch, and `search` the
    /// keys of so many neighbours. There is no answer where the index is
    /// switched off, the query has another width, there is no generation, or
    /// the tail is too long.
    pub fn query<T, S, F>(
        &self,
        enabled: bool,
        data_dir: &PathParts,
        flat: &MappedFlatIndex,
        width: usize,
        k: usize,
        load_tail: T,
        search: S,
        score: F,
    ) -> (result: Result<Option<ClipAnnQuery>, String>) where
        T: Fn(u64) -> Result<Vec<DerivedAnnTailRow>, String>,
        S: Fn(usize) -> Result<Vec<u64>, String>,
        F: Fn(&Vec<u32>) -> u32,

        requires
            flat.wf(),
            forall|epoch: u64| #[trigger] call_requires(load_tail, (epoch,)),
            forall|count: usize| #[trigger] call_requires(search, (count,)),
            forall|v: Vec<u32>| #[trigger] call_requires(score, (&v,)),
        ensures
            self.queried(enabled, data_dir, flat, width, k, load_tail, search, score, result),
    {
        if !ClipAnnState::query_admissible(enabled, width, k) {
            return Ok(None);
        }
        let epoch = match self.generation_snapshot(data_dir) {
            Some(epoch) => epoch,
            None => {
                return Ok(None);
            },
        };
        let rows: usize = match &self.generation {
            Some(reader) => reader.manifest.row_count as usize,
            None => 0,
        };
        let loaded = load_tail(epoch);
        assert(tail_loaded(load_tail, epoch, loaded));
        let tail = match loaded {
            Ok(tail) => tail,
            Err(e) => {
                return match ClipAnnState::tail_failure(e) {
                    Some(error) => Err(error),
                    None => Ok(None),
                };
            },
        };
        let found = search(ann_candidate_count(rows, k));
        assert(graph_searched(search, candidate_count(rows as int, k as int) as usize, found));
        let keys = match found {
            Ok(keys) => keys,
            Err(e) => {
                return Err(text::join2("ann_search_failed:", &e));
            },
        };
        match query_generation(flat, &keys, &tail, width, k, score) {
            Ok(candidates) => Ok(
                Some(ClipAnnQuery { candidates, mode: "ann", tail_rows: tail.len() }),
            ),
            Err(e) => Err(e),
        }
    }

    /// Compares every row of the generation that did not change, and the rows
    /// that are newer than it. `late` tells whether the deadline has passed.
    /// There is no answer where a search has none, or the tail cannot be
    /// loaded.
    pub fn exact_from_generation<T, F, D>(
        &self,
        enabled: bool,
        data_dir: &PathParts,
        flat: &MappedFlatIndex,
        width: usize,
        k: usize,
        load_tail: T,
        score: F,
        late: D,
    ) -> (result: Result<Option<ClipAnnQuery>, String>) where
        T: Fn(u64) -> Result<Vec<DerivedAnnTailRow>, String>,
        F: Fn(&Vec<u32>) -> u32,
        D: Fn() -> bool,

        requires
            flat.wf(),
            forall|epoch: u64| #[trigger] call_requires(load_tail, (epoch,)),
            forall|v: Vec<u32>| #[trigger] call_requires(score, (&v,)),
            call_requires(late, ()),
        ensures
            self.exactly_queried(enabled, data_dir, flat, width, k, load_tail, score, late, result),
    {
        if !ClipAnnState::query_admissible(enabled, width, k) {
            return Ok(None);
        }
        let epoch = match self.generation_snapshot(data_dir) {
            Some(epoch) => epoch,
            None => {
                return Ok(None);
            },
        };
        let loaded = load_tail(epoch);
        assert(tail_loaded(load_tail, epoch, loaded));
        let tail = match loaded {
            Ok(tail) => tail,
            Err(_) => {
                return Ok(None);
            },
        };
        match exact_candidates(flat, &tail, width, k, score, late) {
            Ok(candidates) => Ok(
                Some(ClipAnnQuery { candidates, mode: "flat_exact", tail_rows: tail.len() }),
            ),
            Err(e) => Err(e),
        }
    }
}

/// What a search of the graph and the tail comes to.
pub open spec fn searched<
    S: Fn(usize) -> Result<Vec<u64>, String>,
    F: Fn(&Vec<u32>) -> u32,
>(
    search: S,
    score: F,
    flat: MappedFlatIndex,
    count: usize,
    tail: Seq<DerivedAnnTailRow>,
    width: usize,
    k: usize,
    result: Result<Option<ClipAnnQuery>, String>,
) -> bool {
    exists|keys: Result<Vec<u64>, String>| #[trigger]
        graph_searched(search, count, keys) && match (keys, result) {
            (Err(e), Err(told)) => told@ == "ann_search_failed:"@ + e@,
            (Ok(found), Err(e)) => model_of(flat).matches_fault(found@) == Some(e@),
            (Ok(found), Ok(Some(answer))) => {
                &&& model_of(flat).matches_fault(found@) is None
                &&& answer.mode@ == "ann"@
                &&& answer.tail_rows == tail.len()
                &&& answers(
                    score,
                    model_of(flat),
                    found@,
                    tail,
                    width as nat,
                    k as nat,
                    ranking::scored_views(answer.candidates@),
                )
            },
            _ => false,
        }
}

/// A query is answered only where the index is switched on, the query has the
/// width of the model and asks for something, and a generation of this storage
/// is there. What it answers takes in every row that came after the generation,
/// lists no subject twice and no more than were asked for.
pub proof fn law_queries_take_in_what_is_new<
    T: Fn(u64) -> Result<Vec<DerivedAnnTailRow>, String>,
    S: Fn(usize) -> Result<Vec<u64>, String>,
    F: Fn(&Vec<u32>) -> u32,
>(
    state: ClipAnnState,
    enabled: bool,
    data_dir: &PathParts,
    flat: &MappedFlatIndex,
    width: usize,
    k: usize,
    load_tail: T,
    search: S,
    score: F,
    result: Result<Option<ClipAnnQuery>, String>,
)
    requires
        state.queried(enabled, data_dir, flat, width, k, load_tail, search, score, result),
    ensures
        !enabled || width != 512 || k == 0 || state.generation is None
            || state.generation->0.data_dir@ != data_dir@ ==> result == Ok::<
            Option<ClipAnnQuery>,
            String,
        >(None),
        result matches Ok(Some(answer)) ==> {
            &&& answer.mode@ == "ann"@
            &&& answer.candidates@.len() <= k
            &&& forall|i: int, j: int|
                0 <= i < j < answer.candidates@.len() ==> (
                #[trigger] answer.candidates@[i]).subject_key@ != (
                #[trigger] answer.candidates@[j]).subject_key@
            &&& exists|tail: Vec<DerivedAnnTailRow>|
                {
                    &&& #[trigger] call_ensures(
                        load_tail,
                        (state.generation->0.manifest.covered_epoch,),
                        Ok(tail),
                    )
                    &&& answer.tail_rows == tail@.len()
                    &&& forall|r: int, t: int|
                        0 <= r < answer.candidates@.len() && 0 <= t < tail@.len() && (
                        #[trigger] answer.candidates@[r]).subject_key@ == (
                        #[trigger] tail@[t]).subject_key@ ==> scored_by_tail(
                            score,
                            tail@,
                            width as nat,
                            answer.candidates@[r].subject_key@,
                            ranking::scored_views(answer.candidates@)[r].score,
                        )
                }
        },
{
    if result is Ok && result->Ok_0 is Some {
        let answer = result->Ok_0->0;
        let epoch = state.generation->0.manifest.covered_epoch;
        let rows = state.generation->0.manifest.row_count as usize as int;
        let count = candidate_count(rows, k as int) as usize;
        let loaded = choose|tail: Result<Vec<DerivedAnnTailRow>, String>| #[trigger]
            tail_loaded(load_tail, epoch, tail) && match tail {
                Err(e) => if text::begins(e@, "ann_tail_too_large:"@) {
                    result == Ok::<Option<ClipAnnQuery>, String>(None)
                } else {
                    result == Err::<Option<ClipAnnQuery>, String>(e)
                },
                Ok(found) => searched(
                    search,
                    score,
                    *flat,
                    count,
                    found@,
                    width,
                    k,
                    result,
                ),
            };
        assert(loaded is Ok);
        let tail = loaded->Ok_0;
        let keys = choose|keys: Result<Vec<u64>, String>| #[trigger]
            graph_searched(search, count, keys) && match (keys, result) {
                (Err(e), Err(told)) => told@ == "ann_search_failed:"@ + e@,
                (Ok(found), Err(e)) => model_of(*flat).matches_fault(found@) == Some(e@),
                (Ok(found), Ok(Some(answer))) => {
                    &&& model_of(*flat).matches_fault(found@) is None
                    &&& answer.mode@ == "ann"@
                    &&& answer.tail_rows == tail@.len()
                    &&& answers(
                        score,
                        model_of(*flat),
                        found@,
                        tail@,
                        width as nat,
                        k as nat,
                        ranking::scored_views(answer.candidates@),
                    )
                },
                _ => false,
            };
        let listed = ranking::scored_views(answer.candidates@);
        law_search_is_current(
            score,
            model_of(*flat),
            keys->Ok_0@,
            tail@,
            width as nat,
            k as nat,
            listed,
        );
        assert(forall|i: int|
            0 <= i < listed.len() ==> (#[trigger] listed[i]).key
                == answer.candidates@[i].subject_key@);
        assert forall|i: int, j: int| 0 <= i < j < answer.candidates@.len() implies (
        #[trigger] answer.candidates@[i]).subject_key@ != (
        #[trigger] answer.candidates@[j]).subject_key@ by {
            assert(listed[i].key != listed[j].key);
        }
        assert forall|r: int, t: int|
            0 <= r < answer.candidates@.len() && 0 <= t < tail@.len() && (
            #[trigger] answer.candidates@[r]).subject_key@ == (
            #[trigger] tail@[t]).subject_key@ implies scored_by_tail(
            score,
            tail@,
            width as nat,
            answer.candidates@[r].subject_key@,
            ranking::scored_views(answer.candidates@)[r].score,
        ) by {
            assert(listed[r].key == tail@[t].subject_key@);
        }
        assert(call_ensures(load_tail, (epoch,), Ok(tail)));
    }
}

/// An exact query says that it is one, and takes in every row that came after
/// the generation.
pub proof fn law_exact_queries_take_in_what_is_new<
    T: Fn(u64) -> Result<Vec<DerivedAnnTailRow>, String>,
    F: Fn(&Vec<u32>) -> u32,
    D: Fn() -> bool,
>(
    state: ClipAnnState,
    enabled: bool,
    data_dir: &PathParts,
    flat: &MappedFlatIndex,
    width: usize,
    k: usize,
    load_tail: T,
    score: F,
    late: D,
    result: Result<Option<ClipAnnQuery>, String>,
)
    requires
        state.exactly_queried(enabled, data_dir, flat, width, k, load_tail, score, late, result),
    ensures
        !enabled || width != 512 || k == 0 || state.generation is None
            || state.generation->0.data_dir@ != data_dir@ ==> result == Ok::<
            Option<ClipAnnQuery>,
            String,
        >(None),
        result matches Ok(Some(answer)) ==> answer.mode@ == "flat_exact"@ && exists|
            tail: Vec<DerivedAnnTailRow>,
        |
            {
                &&& #[trigger] call_ensures(
                    load_tail,
                    (state.generation->0.manifest.covered_epoch,),
                    Ok(tail),
                )
                &&& answer.tail_rows == tail@.len()
                &&& scanned(score, late, *flat, tail@, width, k, Ok(answer.candidates))
            },
{
    if result is Ok && result->Ok_0 is Some {
        let answer = result->Ok_0->0;
        let epoch = state.generation->0.manifest.covered_epoch;
        let loaded = choose|tail: Result<Vec<DerivedAnnTailRow>, String>| #[trigger]
            tail_loaded(load_tail, epoch, tail) && match tail {
                Err(_) => result == Ok::<Option<ClipAnnQuery>, String>(None),
                Ok(rows) => match result {
                    Ok(None) => false,
                    Ok(Some(answer)) => {
                        &&& answer.mode@ == "flat_exact"@
                        &&& answer.tail_rows == rows@.len()
                        &&& scanned(
                            score,
                            late,
                            *flat,
                            rows@,
                            width,
                            k,
                            Ok::<Vec<ScoredSubject>, String>(answer.candidates),
                        )
                    },
                    Err(e) => scanned(
                        score,
                        late,
                        *flat,
                        rows@,
                        width,
                        k,
                        Err::<Vec<ScoredSubject>, String>(e),
                    ),
                },
            };
        assert(loaded is Ok);
        assert(call_ensures(load_tail, (epoch,), Ok(loaded->Ok_0)));
    }
}

/// Larger graphs are searched more widely, within 2400 and 4096.
pub proof fn law_larger_graphs_are_searched_more_widely(a: int, b: int)
    requires
        0 <= a <= b,
    ensures
        2400 <= search_width(a) <= search_width(b) <= 4096,
        a < 2400 * 600 ==> search_width(a) == 2400,
        a >= 4096 * 600 ==> search_width(a) == 4096,
        2400 * 600 <= a < 4096 * 600 ==> 600 * search_width(a) <= a < 600 * (search_width(a) + 1),
{
}

/// Matches can be resolved exactly if each of them names a row whose key can be
/// read.
pub proof fn law_matches_name_rows(file: FlatModel, keys: Seq<u64>, i: int)
    ensures
        file.matches_fault(keys) is None && 0 <= i < keys.len() ==> file.subject(keys[i]) is Ok
            && keys[i] > 0,
        0 <= i < keys.len() && file.subject(keys[i]) is Err ==> file.matches_fault(keys) is Some,
        (forall|j: int| 0 <= j < keys.len() ==> file.subject(#[trigger] keys[j]) is Ok)
            ==> file.matches_fault(keys) is None,
    decreases keys.len(),
{
    if keys.len() > 0 {
        let rest = keys.drop_first();
        law_matches_name_rows(file, rest, i - 1);
        if 0 < i < keys.len() {
            assert(rest[i - 1] == keys[i]);
        }
        if forall|j: int| 0 <= j < keys.len() ==> file.subject(#[trigger] keys[j]) is Ok {
            assert(file.subject(keys[0]) is Ok);
            assert forall|j: int| 0 <= j < rest.len() implies file.subject(
                #[trigger] rest[j],
            ) is Ok by {
                assert(rest[j] == keys[j + 1]);
            }
        }
    }
}

} // verus!
