//! Anchors: texts that stand for categories, by category and in the order in
//! which the categories came.
use crate::json::{Json, JsonModel};
use crate::{json, text};
use indexmap::IndexMap;
use vstd::prelude::*;
use vstd::string::*;
use vstd::utf8::*;

verus! {

/// Declares the insertion-ordered map.
#[verifier::external_type_specification]
#[verifier::external_body]
#[verifier::reject_recursive_types(K)]
#[verifier::reject_recursive_types(V)]
#[verifier::reject_recursive_types(S)]
pub struct ExIndexMap<K, V, S>(indexmap::IndexMap<K, V, S>);

/// A weight of one.
pub const WEIGHT_ONE: u64 = 0x3FF0_0000_0000_0000;

/// A weight of one and a half.
pub const WEIGHT_ONE_AND_A_HALF: u64 = 0x3FF8_0000_0000_0000;

/// A weight of two.
pub const WEIGHT_TWO: u64 = 0x4000_0000_0000_0000;

/// The largest weight: that of the largest single-precision number.
pub const WEIGHT_MAX: u64 = 0x47EF_FFFF_E000_0000;

/// A text that stands for a category. The weight is a double-precision number,
/// by its bits; what else came with the anchor is kept as it was written.
#[derive(Debug)]
pub struct Anchor {
    pub text: String,
    pub source: String,
    pub weight: u64,
    pub scope: String,
    pub process_name: Option<String>,
    pub added_at: String,
    pub extra: Vec<(String, String)>,
}

/// What an anchor says.
pub struct AnchorModel {
    pub text: Seq<char>,
    pub source: Seq<char>,
    pub weight: u64,
    pub scope: Seq<char>,
    pub process_name: Option<Seq<char>>,
    pub added_at: Seq<char>,
    pub extra: Seq<(Seq<char>, Seq<char>)>,
}

/// The text of a value that may be missing.
pub open spec fn optional(value: Option<String>) -> Option<Seq<char>> {
    match value {
        Some(s) => Some(s@),
        None => None,
    }
}

fn copy_optional(value: &Option<String>) -> (result: Option<String>)
    ensures
        optional(result) == optional(*value),
{
    match value {
        Some(s) => Some(s.clone()),
        None => None,
    }
}

impl Anchor {
    /// What the anchor says.
    pub open spec fn model(&self) -> AnchorModel {
        AnchorModel {
            text: self.text@,
            source: self.source@,
            weight: self.weight,
            scope: self.scope@,
            process_name: optional(self.process_name),
            added_at: self.added_at@,
            extra: self.extra@.map_values(|e: (String, String)| (e.0@, e.1@)),
        }
    }

    pub fn new(
        text: String,
        source: &str,
        weight: u64,
        scope: &str,
        process: Option<String>,
        now: &str,
    ) -> (result: Self)
        ensures
            result.model() == made(text@, source@, weight, scope@, optional(process), now@),
            result.text == text,
            result.process_name == process,
    {
        let extra: Vec<(String, String)> = Vec::new();
        let anchor = Anchor {
            text,
            source: source.to_owned(),
            weight,
            scope: scope.to_owned(),
            process_name: process,
            added_at: now.to_owned(),
            extra,
        };
        assert(anchor.model().extra =~= Seq::<(Seq<char>, Seq<char>)>::empty());
        anchor
    }

    /// A second copy.
    pub fn copy(&self) -> (result: Self)
        ensures
            result.model() == self.model(),
    {
        let mut extra: Vec<(String, String)> = Vec::new();
        let mut i: usize = 0;
        while i < self.extra.len()
            invariant
                i <= self.extra@.len(),
                extra@.len() == i,
                forall|j: int|
                    0 <= j < i ==> (#[trigger] extra@[j]).0@ == self.extra@[j].0@ && extra@[j].1@
                        == self.extra@[j].1@,
            decreases self.extra@.len() - i,
        {
            extra.push((self.extra[i].0.clone(), self.extra[i].1.clone()));
            i = i + 1;
        }
        let anchor = Anchor {
            text: self.text.clone(),
            source: self.source.clone(),
            weight: self.weight,
            scope: self.scope.clone(),
            process_name: copy_optional(&self.process_name),
            added_at: self.added_at.clone(),
            extra,
        };
        assert(anchor.model().extra =~= self.model().extra);
        anchor
    }
}

/// What a new anchor says.
pub open spec fn made(
    text: Seq<char>,
    source: Seq<char>,
    weight: u64,
    scope: Seq<char>,
    process_name: Option<Seq<char>>,
    now: Seq<char>,
) -> AnchorModel {
    AnchorModel { text, source, weight, scope, process_name, added_at: now, extra: Seq::empty() }
}

/// What a default anchor says.
pub open spec fn default_anchor(text: Seq<char>, now: Seq<char>) -> AnchorModel {
    made(text, "default"@, WEIGHT_ONE, "global"@, None, now)
}

/// The anchors by category.
pub type Anchors = IndexMap<String, Vec<Anchor>>;

/// What the map holds, in its order.
pub uninterp spec fn entries(anchors: Anchors) -> Seq<(Seq<char>, Seq<Anchor>)>;

/// The place of a category, or the length where it is missing.
pub open spec fn place<X>(list: Seq<(Seq<char>, X)>, key: Seq<char>) -> int
    decreases list.len(),
{
    if list.len() == 0 || list[0].0 == key {
        0
    } else {
        1 + place(list.drop_first(), key)
    }
}

/// The category is there.
pub open spec fn listed<X>(list: Seq<(Seq<char>, X)>, key: Seq<char>) -> bool {
    place(list, key) < list.len()
}

/// What is put under a category takes the place of what was there, or comes
/// last.
pub open spec fn put<X>(list: Seq<(Seq<char>, X)>, key: Seq<char>, value: X) -> Seq<
    (Seq<char>, X),
> {
    if listed(list, key) {
        list.update(place(list, key), (key, value))
    } else {
        list.push((key, value))
    }
}

/// Without a category; the others keep their order.
pub open spec fn without<X>(list: Seq<(Seq<char>, X)>, key: Seq<char>) -> Seq<(Seq<char>, X)> {
    if listed(list, key) {
        list.remove(place(list, key))
    } else {
        list
    }
}

/// What is under a category; nothing where it is missing.
pub open spec fn rows_under<Y>(list: Seq<(Seq<char>, Seq<Y>)>, key: Seq<char>) -> Seq<Y> {
    if listed(list, key) {
        list[place(list, key)].1
    } else {
        Seq::empty()
    }
}

pub proof fn lemma_place<X>(list: Seq<(Seq<char>, X)>, key: Seq<char>)
    ensures
        0 <= place(list, key) <= list.len(),
        forall|i: int| 0 <= i < place(list, key) ==> (#[trigger] list[i]).0 != key,
        listed(list, key) ==> list[place(list, key)].0 == key,
    decreases list.len(),
{
    if list.len() > 0 && list[0].0 != key {
        let rest = list.drop_first();
        lemma_place(rest, key);
        assert forall|i: int| 0 <= i < place(list, key) implies (#[trigger] list[i]).0 != key by {
            if i > 0 {
                assert(rest[i - 1] == list[i]);
            }
        }
        if listed(list, key) {
            assert(rest[place(rest, key)] == list[place(list, key)]);
        }
    }
}

pub proof fn lemma_place_is<X>(list: Seq<(Seq<char>, X)>, key: Seq<char>, at: int)
    requires
        0 <= at <= list.len(),
        forall|i: int| 0 <= i < at ==> (#[trigger] list[i]).0 != key,
        at < list.len() ==> list[at].0 == key,
    ensures
        place(list, key) == at,
{
    lemma_place(list, key);
    if place(list, key) < at {
        assert(list[place(list, key)].0 != key);
    }
}

/// What was put under a category is found there, and the other categories are
/// as they were.
pub proof fn law_put_is_found<X>(list: Seq<(Seq<char>, X)>, key: Seq<char>, value: X, other: Seq<char>)
    ensures
        listed(put(list, key, value), key),
        put(list, key, value)[place(put(list, key, value), key)].1 == value,
        other != key ==> listed(put(list, key, value), other) == listed(list, other),
        other != key && listed(list, other) ==> put(list, key, value)[place(
            put(list, key, value),
            other,
        )] == list[place(list, other)],
{
    let after = put(list, key, value);
    lemma_place(list, key);
    lemma_place(list, other);
    assert forall|i: int| 0 <= i < place(list, key) implies (#[trigger] after[i]).0 != key by {
        assert(list[i].0 != key);
    }
    lemma_place_is(after, key, place(list, key));
    if other != key {
        let at = place(list, other);
        assert forall|i: int| 0 <= i < at implies (#[trigger] after[i]).0 != other by {
            assert(list[i].0 != other);
        }
        if listed(list, other) {
            lemma_place_is(after, other, at);
        } else {
            assert forall|i: int| 0 <= i < after.len() implies (#[trigger] after[i]).0 != other by {
                if i < list.len() {
                    assert(list[i].0 != other);
                }
            }
            lemma_place_is(after, other, after.len() as int);
        }
    }
}

/// No category is listed twice.
pub open spec fn listed_once<X>(list: Seq<(Seq<char>, X)>) -> bool {
    forall|i: int, j: int|
        0 <= i < j < list.len() ==> (#[trigger] list[i]).0 != (#[trigger] list[j]).0
}

/// What was removed is gone, and the other categories are as they were.
pub proof fn law_removed_is_gone<X>(list: Seq<(Seq<char>, X)>, key: Seq<char>, other: Seq<char>)
    requires
        listed_once(list),
    ensures
        listed_once(without(list, key)),
        !listed(without(list, key), key),
        other != key ==> listed(without(list, key), other) == listed(list, other),
        other != key && listed(list, other) ==> without(list, key)[place(
            without(list, key),
            other,
        )] == list[place(list, other)],
{
    let after = without(list, key);
    lemma_place(list, key);
    lemma_place(list, other);
    lemma_place(after, key);
    lemma_place(after, other);
    let at = place(list, key);
    if listed(list, key) {
        assert forall|i: int| 0 <= i < after.len() implies #[trigger] after[i] == list[if i < at {
            i
        } else {
            i + 1
        }] by {}
        assert forall|i: int| 0 <= i < after.len() implies (#[trigger] after[i]).0 != key by {
            if i < at {
                assert(list[i].0 != list[at].0);
            } else {
                assert(list[at].0 != list[i + 1].0);
            }
        }
        if other != key && listed(list, other) {
            let p = place(list, other);
            let q = if p < at {
                p
            } else {
                p - 1
            };
            assert forall|i: int| 0 <= i < q implies (#[trigger] after[i]).0 != other by {
                if i < at {
                    assert(list[i].0 != other);
                } else {
                    assert(list[i + 1].0 != other);
                }
            }
            lemma_place_is(after, other, q);
        } else if other != key {
            assert forall|i: int| 0 <= i < after.len() implies (#[trigger] after[i]).0 != other by {
                if i < at {
                    assert(list[i].0 != other);
                } else {
                    assert(list[i + 1].0 != other);
                }
            }
            lemma_place_is(after, other, after.len() as int);
        }
    }
}

pub proof fn lemma_put_once<X>(list: Seq<(Seq<char>, X)>, key: Seq<char>, value: X)
    requires
        listed_once(list),
    ensures
        listed_once(put(list, key, value)),
{
    lemma_place(list, key);
    let after = put(list, key, value);
    assert forall|i: int, j: int| 0 <= i < j < after.len() implies (#[trigger] after[i]).0 != (
    #[trigger] after[j]).0 by {
        if j < list.len() {
            assert(list[i].0 != list[j].0);
        } else {
            assert(list[i].0 != key);
        }
    }
}

/// `indexmap::IndexMap::new`: an empty map.
#[verifier::external_body]
pub(crate) fn no_anchors() -> (result: Anchors)
    ensures
        entries(result) == Seq::<(Seq<char>, Seq<Anchor>)>::empty(),
{
    IndexMap::new()
}

/// `indexmap::IndexMap::len`: how many categories there are.
#[verifier::external_body]
pub(crate) fn category_count(anchors: &Anchors) -> (result: usize)
    ensures
        result == entries(*anchors).len(),
{
    anchors.len()
}

/// `indexmap::IndexMap::get_index`: the category at a place, with its anchors.
/// No category is there twice.
#[verifier::external_body]
pub(crate) fn category_at(anchors: &Anchors, at: usize) -> (result: Option<(&String, &Vec<Anchor>)>)
    ensures
        match result {
            Some(entry) => {
                &&& at < entries(*anchors).len()
                &&& entries(*anchors)[at as int] == (entry.0@, entry.1@)
                &&& place(entries(*anchors), entry.0@) == at
            },
            None => at >= entries(*anchors).len(),
        },
{
    anchors.get_index(at)
}

/// `indexmap::IndexMap::insert`: what is put under a category that is there
/// takes the place of what was, which is returned; a new category comes last.
#[verifier::external_body]
pub(crate) fn put_rows(anchors: &mut Anchors, category: String, rows: Vec<Anchor>) -> (result:
    Option<Vec<Anchor>>)
    ensures
        entries(*final(anchors)) == put(entries(*old(anchors)), category@, rows@),
        match result {
            Some(before) => listed(entries(*old(anchors)), category@) && before@ == entries(
                *old(anchors),
            )[place(entries(*old(anchors)), category@)].1,
            None => !listed(entries(*old(anchors)), category@),
        },
{
    anchors.insert(category, rows)
}

/// `indexmap::IndexMap::contains_key`: the category is there.
#[verifier::external_body]
pub(crate) fn has_category(anchors: &Anchors, category: &str) -> (result: bool)
    ensures
        result == listed(entries(*anchors), category@),
{
    anchors.contains_key(category)
}

/// `indexmap::IndexMap::shift_remove`: the category goes, the others keep their
/// order.
#[verifier::external_body]
pub(crate) fn drop_category(anchors: &mut Anchors, category: &str)
    ensures
        entries(*final(anchors)) == without(entries(*old(anchors)), category@),
{
    anchors.shift_remove(category);
}

/// A category has a name, and not too long a one.
pub open spec fn valid_category(category: Seq<char>) -> bool {
    text::trimmed(category).len() > 0 && encode_utf8(category).len() <= 256
}

/// A weight is not negative and not too large.
pub open spec fn valid_weight(weight: u64) -> bool {
    weight <= WEIGHT_MAX || weight == 0x8000_0000_0000_0000
}

/// What the anchors say.
pub open spec fn models(rows: Seq<Anchor>) -> Seq<AnchorModel> {
    rows.map_values(|a: Anchor| a.model())
}

/// What the anchors under each category say.
pub open spec fn modelled(list: Seq<(Seq<char>, Seq<Anchor>)>) -> Seq<(Seq<char>, Seq<AnchorModel>)> {
    list.map_values(|e: (Seq<char>, Seq<Anchor>)| (e.0, models(e.1)))
}

pub proof fn lemma_modelled(list: Seq<(Seq<char>, Seq<Anchor>)>, key: Seq<char>, rows: Seq<Anchor>)
    ensures
        place(modelled(list), key) == place(list, key),
        modelled(put(list, key, rows)) == put(modelled(list), key, models(rows)),
        modelled(without(list, key)) == without(modelled(list), key),
        rows_under(modelled(list), key) == models(rows_under(list, key)),
{
    let model = modelled(list);
    lemma_place(list, key);
    let at = place(list, key);
    assert forall|i: int| 0 <= i < at implies (#[trigger] model[i]).0 != key by {
        assert(list[i].0 != key);
    }
    lemma_place_is(model, key, at);
    assert(modelled(put(list, key, rows)) =~= put(model, key, models(rows)));
    assert(modelled(without(list, key)) =~= without(model, key));
    if !listed(list, key) {
        assert(models(rows_under(list, key)) =~= Seq::<AnchorModel>::empty());
    }
}

/// What is wrong with an anchor.
pub open spec fn anchor_fault(anchor: AnchorModel, item_bytes: usize) -> Option<Seq<char>> {
    if !valid_weight(anchor.weight) {
        Some("invalid anchor weight"@)
    } else if encode_utf8(anchor.text).len() > item_bytes {
        Some("anchor text exceeds embedding limit"@)
    } else {
        None
    }
}

/// What is wrong with the first anchor with which something is.
pub open spec fn rows_fault(rows: Seq<AnchorModel>, item_bytes: usize) -> Option<Seq<char>>
    decreases rows.len(),
{
    if rows.len() == 0 {
        None
    } else {
        match rows_fault(rows.drop_last(), item_bytes) {
            Some(fault) => Some(fault),
            None => anchor_fault(rows.last(), item_bytes),
        }
    }
}

/// What is wrong with a category and its anchors.
pub open spec fn entry_fault(entry: (Seq<char>, Seq<AnchorModel>), item_bytes: usize) -> Option<Seq<char>> {
    if !valid_category(entry.0) {
        Some("invalid anchor category"@)
    } else {
        rows_fault(entry.1, item_bytes)
    }
}

/// What is wrong with the first category with which something is.
pub open spec fn fault(list: Seq<(Seq<char>, Seq<AnchorModel>)>, item_bytes: usize) -> Option<Seq<char>>
    decreases list.len(),
{
    if list.len() == 0 {
        None
    } else {
        match fault(list.drop_last(), item_bytes) {
            Some(f) => Some(f),
            None => entry_fault(list.last(), item_bytes),
        }
    }
}

proof fn lemma_rows_fault(rows: Seq<AnchorModel>, item_bytes: usize)
    ensures
        rows_fault(rows, item_bytes) is None <==> (forall|i: int|
            0 <= i < rows.len() ==> anchor_fault(#[trigger] rows[i], item_bytes) is None),
    decreases rows.len(),
{
    if rows.len() > 0 {
        let head = rows.drop_last();
        lemma_rows_fault(head, item_bytes);
        assert(forall|i: int| 0 <= i < head.len() ==> #[trigger] head[i] == rows[i]);
        if rows_fault(rows, item_bytes) is None {
            assert forall|i: int| 0 <= i < rows.len() implies anchor_fault(
                #[trigger] rows[i],
                item_bytes,
            ) is None by {
                if i < head.len() {
                    assert(anchor_fault(head[i], item_bytes) is None);
                }
            }
        } else if forall|i: int|
            0 <= i < rows.len() ==> anchor_fault(#[trigger] rows[i], item_bytes) is None {
            assert forall|i: int| 0 <= i < head.len() implies anchor_fault(
                #[trigger] head[i],
                item_bytes,
            ) is None by {
                assert(anchor_fault(rows[i], item_bytes) is None);
            }
            assert(anchor_fault(rows[rows.len() - 1], item_bytes) is None);
        }
    }
}

/// Nothing is wrong exactly if every category is valid, and every anchor under
/// it.
pub proof fn law_sound_anchors(list: Seq<(Seq<char>, Seq<AnchorModel>)>, item_bytes: usize)
    ensures
        fault(list, item_bytes) is None <==> (forall|i: int|
            0 <= i < list.len() ==> entry_fault(#[trigger] list[i], item_bytes) is None),
    decreases list.len(),
{
    if list.len() > 0 {
        let head = list.drop_last();
        law_sound_anchors(head, item_bytes);
        assert(forall|i: int| 0 <= i < head.len() ==> #[trigger] head[i] == list[i]);
        if fault(list, item_bytes) is None {
            assert forall|i: int| 0 <= i < list.len() implies entry_fault(
                #[trigger] list[i],
                item_bytes,
            ) is None by {
                if i < head.len() {
                    assert(entry_fault(head[i], item_bytes) is None);
                }
            }
        } else if forall|i: int|
            0 <= i < list.len() ==> entry_fault(#[trigger] list[i], item_bytes) is None {
            assert forall|i: int| 0 <= i < head.len() implies entry_fault(
                #[trigger] head[i],
                item_bytes,
            ) is None by {
                assert(entry_fault(list[i], item_bytes) is None);
            }
            assert(entry_fault(list[list.len() - 1], item_bytes) is None);
        }
    }
}

fn category_is_valid(category: &str) -> (result: bool)
    ensures
        result == valid_category(category@),
{
    let trimmed = text::trim(category);
    text::chars_of(&trimmed).len() > 0 && category.as_bytes().len() <= 256
}

fn find_fault(rows: &Vec<Anchor>, item_bytes: usize) -> (result: Option<String>)
    ensures
        match result {
            Some(told) => rows_fault(models(rows@), item_bytes) == Some(told@),
            None => rows_fault(models(rows@), item_bytes) is None,
        },
{
    let ghost all = models(rows@);
    let mut i: usize = 0;
    while i < rows.len()
        invariant
            i <= rows@.len(),
            all == models(rows@),
            rows_fault(all.take(i as int), item_bytes) is None,
        decreases rows@.len() - i,
    {
        assert(all.take(i + 1).drop_last() =~= all.take(i as int));
        assert(all.take(i + 1).last() == rows@[i as int].model());
        let weight: u64 = rows[i].weight;
        if !(weight <= WEIGHT_MAX || weight == 0x8000_0000_0000_0000) {
            proof {
                lemma_fault_stays(all, i + 1, item_bytes);
            }
            return Some("invalid anchor weight".to_owned());
        }
        if rows[i].text.as_str().as_bytes().len() > item_bytes {
            proof {
                lemma_fault_stays(all, i + 1, item_bytes);
            }
            return Some("anchor text exceeds embedding limit".to_owned());
        }
        i = i + 1;
    }
    assert(all.take(all.len() as int) =~= all);
    None
}

proof fn lemma_fault_stays(rows: Seq<AnchorModel>, n: int, item_bytes: usize)
    requires
        0 <= n <= rows.len(),
        rows_fault(rows.take(n), item_bytes) is Some,
    ensures
        rows_fault(rows, item_bytes) == rows_fault(rows.take(n), item_bytes),
    decreases rows.len() - n,
{
    if n < rows.len() {
        assert(rows.take(n + 1).drop_last() =~= rows.take(n));
        lemma_fault_stays(rows, n + 1, item_bytes);
    } else {
        assert(rows.take(n) =~= rows);
    }
}

proof fn lemma_list_fault_stays(list: Seq<(Seq<char>, Seq<AnchorModel>)>, n: int, item_bytes: usize)
    requires
        0 <= n <= list.len(),
        fault(list.take(n), item_bytes) is Some,
    ensures
        fault(list, item_bytes) == fault(list.take(n), item_bytes),
    decreases list.len() - n,
{
    if n < list.len() {
        assert(list.take(n + 1).drop_last() =~= list.take(n));
        lemma_list_fault_stays(list, n + 1, item_bytes);
    } else {
        assert(list.take(n) =~= list);
    }
}

/// Checks all anchors, in order. `item_bytes` is how long a text may be.
pub fn validate_anchors(anchors: &Anchors, item_bytes: usize) -> (result: Result<(), String>)
    ensures
        match result {
            Ok(_) => fault(modelled(entries(*anchors)), item_bytes) is None,
            Err(told) => fault(modelled(entries(*anchors)), item_bytes) == Some(told@),
        },
{
    let ghost list = modelled(entries(*anchors));
    let count: usize = category_count(anchors);
    let mut i: usize = 0;
    while i < count
        invariant
            i <= count,
            list == modelled(entries(*anchors)),
            count == list.len(),
            fault(list.take(i as int), item_bytes) is None,
        decreases count - i,
    {
        proof {
            assert(list.take(i + 1).drop_last() =~= list.take(i as int));
            assert(list.take(i + 1).last() == list[i as int]);
        }
        match category_at(anchors, i) {
            Some((category, rows)) => {
                if !category_is_valid(category) {
                    proof {
                        lemma_list_fault_stays(list, i + 1, item_bytes);
                    }
                    return Err("invalid anchor category".to_owned());
                }
                match find_fault(rows, item_bytes) {
                    Some(told) => {
                        proof {
                            lemma_list_fault_stays(list, i + 1, item_bytes);
                        }
                        return Err(told);
                    },
                    None => {},
                }
            },
            None => {},
        }
        i = i + 1;
    }
    assert(list.take(list.len() as int) =~= list);
    Ok(())
}

/// An anchor as it was found in an older file.
#[derive(Debug)]
pub enum LegacyAnchor {
    /// A text alone.
    Text { text: String },
    /// An anchor with its settings.
    Structured { anchor: Anchor },
    /// Neither: it is passed over.
    Unusable,
    /// An anchor whose settings cannot be read.
    Invalid { error: String },
}

/// An entry under a category in an older file.
#[derive(Debug)]
pub enum LegacyEntry {
    /// A text alone.
    Text { text: String },
    /// An object with a text, as it is written.
    Object { json: String },
    /// Anything else: it is passed over.
    Unusable,
}

/// What an entry is.
pub enum EntryModel {
    Text { text: Seq<char> },
    Object { json: Seq<char> },
    Unusable,
}

impl LegacyEntry {
    /// What the entry is.
    pub open spec fn model(&self) -> EntryModel {
        match *self {
            LegacyEntry::Text { text } => EntryModel::Text { text: text@ },
            LegacyEntry::Object { json } => EntryModel::Object { json: json@ },
            LegacyEntry::Unusable => EntryModel::Unusable,
        }
    }
}

/// A string is an anchor with a text alone, and an object with a text is one
/// with its settings. Anything else is none.
pub open spec fn form_of(value: JsonModel) -> EntryModel {
    if value.text is Some {
        EntryModel::Text { text: value.text->0 }
    } else if value.keys is Some && value.keys->0.contains("text"@) {
        EntryModel::Object { json: value.written }
    } else {
        EntryModel::Unusable
    }
}

/// What the values under the categories are.
pub open spec fn forms_of(rows: Seq<(Seq<char>, Seq<JsonModel>)>) -> Seq<
    (Seq<char>, Seq<EntryModel>),
> {
    rows.map_values(
        |row: (Seq<char>, Seq<JsonModel>)|
            (row.0, row.1.map_values(|value: JsonModel| form_of(value))),
    )
}

/// What the entries under the categories are.
pub open spec fn entry_models(list: Seq<(String, Vec<LegacyEntry>)>) -> Seq<
    (Seq<char>, Seq<EntryModel>),
> {
    list.map_values(
        |row: (String, Vec<LegacyEntry>)|
            (row.0@, row.1@.map_values(|entry: LegacyEntry| entry.model())),
    )
}

/// What a value in an older file is.
pub fn legacy_entry(value: &Json) -> (result: LegacyEntry)
    ensures
        result.model() == form_of(value.model()),
{
    match &value.text {
        Some(text) => {
            return LegacyEntry::Text { text: text.clone() };
        },
        None => {},
    }
    match &value.keys {
        Some(keys) => {
            let ghost held = text::texts(keys@);
            let mut i: usize = 0;
            while i < keys.len()
                invariant
                    i <= keys@.len(),
                    held == text::texts(keys@),
                    value.text is None,
                    value.keys == Some(*keys),
                    forall|j: int| 0 <= j < i ==> #[trigger] held[j] != "text"@,
                decreases keys@.len() - i,
            {
                assert(held[i as int] == keys@[i as int]@);
                if text::same(&keys[i], "text") {
                    assert(held.contains("text"@));
                    return LegacyEntry::Object { json: value.written.clone() };
                }
                i = i + 1;
            }
            assert(!held.contains("text"@));
            LegacyEntry::Unusable
        },
        None => LegacyEntry::Unusable,
    }
}

/// The entries of an older file, by category.
pub fn legacy_entries(contents: &str) -> (result: Result<Vec<(String, Vec<LegacyEntry>)>, String>)
    ensures
        match (result, json::json_rows(contents@)) {
            (Ok(list), Ok(rows)) => entry_models(list@) == forms_of(rows),
            (Err(e), Err(why)) => e@ == "invalid anchors.json: "@ + why,
            _ => false,
        },
{
    let rows = match json::parse_rows(contents) {
        Ok(rows) => rows,
        Err(why) => {
            return Err(text::join2("invalid anchors.json: ", &why));
        },
    };
    let ghost forms = forms_of(json::row_models(rows@));
    let mut list: Vec<(String, Vec<LegacyEntry>)> = Vec::new();
    let mut i: usize = 0;
    while i < rows.len()
        invariant
            i <= rows@.len(),
            forms == forms_of(json::row_models(rows@)),
            entry_models(list@) =~= forms.take(i as int),
        decreases rows@.len() - i,
    {
        let values = &rows[i].1;
        let mut found: Vec<LegacyEntry> = Vec::new();
        let mut k: usize = 0;
        while k < values.len()
            invariant
                k <= values@.len(),
                found@.len() == k,
                forall|j: int|
                    0 <= j < k ==> (#[trigger] found@[j]).model() == form_of(values@[j].model()),
            decreases values@.len() - k,
        {
            found.push(legacy_entry(&values[k]));
            k = k + 1;
        }
        let ghost before = list@;
        assert(found@.map_values(|entry: LegacyEntry| entry.model()) =~= forms[i as int].1);
        list.push((rows[i].0.clone(), found));
        assert(entry_models(list@) =~= entry_models(before).push(forms[i as int]));
        i = i + 1;
    }
    assert(forms.take(forms.len() as int) =~= forms);
    Ok(list)
}

/// This is what `read` gives for an object.
pub open spec fn answers<F: Fn(&str) -> Result<Anchor, String>>(
    read: F,
    json: Seq<char>,
    told: Result<Anchor, String>,
) -> bool {
    exists|object: &str| object@ == json && #[trigger] call_ensures(read, (object,), told)
}

/// The anchor is what the entry was read as: an object by `read`.
pub open spec fn read_as<F: Fn(&str) -> Result<Anchor, String>>(
    read: F,
    form: EntryModel,
    anchor: LegacyAnchor,
) -> bool {
    match (form, anchor) {
        (EntryModel::Text { text }, LegacyAnchor::Text { text: told }) => told@ == text,
        (EntryModel::Object { json }, LegacyAnchor::Structured { anchor }) => answers(
            read,
            json,
            Ok(anchor),
        ),
        (EntryModel::Object { json }, LegacyAnchor::Invalid { error }) => answers(
            read,
            json,
            Err(error),
        ),
        (EntryModel::Unusable, LegacyAnchor::Unusable) => true,
        _ => false,
    }
}

/// The anchors are what the entries under the categories were read as.
pub open spec fn all_read_as<F: Fn(&str) -> Result<Anchor, String>>(
    read: F,
    forms: Seq<(Seq<char>, Seq<EntryModel>)>,
    found: Seq<(String, Vec<LegacyAnchor>)>,
) -> bool {
    &&& found.len() == forms.len()
    &&& forall|i: int| 0 <= i < found.len() ==> row_read_as(read, forms[i], #[trigger] found[i])
}

/// The anchors are what the entries under a category were read as.
pub open spec fn row_read_as<F: Fn(&str) -> Result<Anchor, String>>(
    read: F,
    form: (Seq<char>, Seq<EntryModel>),
    found: (String, Vec<LegacyAnchor>),
) -> bool {
    &&& found.0@ == form.0
    &&& found.1@.len() == form.1.len()
    &&& forall|k: int|
        0 <= k < found.1@.len() ==> read_as(read, form.1[k], #[trigger] found.1@[k])
}

fn read_row(
    entries: &Vec<LegacyEntry>,
    read: &impl Fn(&str) -> Result<Anchor, String>,
) -> (result: Vec<LegacyAnchor>)
    requires
        forall|object: &str| #[trigger] call_requires(*read, (object,)),
    ensures
        result@.len() == entries@.len(),
        forall|k: int|
            0 <= k < result@.len() ==> read_as(*read, entries@[k].model(), #[trigger] result@[k]),
{
    let mut found: Vec<LegacyAnchor> = Vec::new();
    let mut k: usize = 0;
    while k < entries.len()
        invariant
            k <= entries@.len(),
            found@.len() == k,
            forall|object: &str| #[trigger] call_requires(*read, (object,)),
            forall|j: int|
                0 <= j < k ==> read_as(*read, entries@[j].model(), #[trigger] found@[j]),
        decreases entries@.len() - k,
    {
        let ghost form = entries@[k as int].model();
        let anchor = match &entries[k] {
            LegacyEntry::Text { text } => LegacyAnchor::Text { text: text.clone() },
            LegacyEntry::Object { json } => {
                let object = json.as_str();
                let told = (*read)(object);
                assert(answers(*read, json@, told));
                match told {
                    Ok(anchor) => LegacyAnchor::Structured { anchor },
                    Err(error) => LegacyAnchor::Invalid { error },
                }
            },
            LegacyEntry::Unusable => LegacyAnchor::Unusable,
        };
        assert(read_as(*read, form, anchor));
        found.push(anchor);
        k = k + 1;
    }
    found
}

/// The anchors that were found under a category.
pub open spec fn read_rows(found: Seq<LegacyAnchor>, now: Seq<char>) -> Result<
    Seq<AnchorModel>,
    Seq<char>,
>
    decreases found.len(),
{
    if found.len() == 0 {
        Ok(Seq::empty())
    } else {
        match read_rows(found.drop_last(), now) {
            Err(e) => Err(e),
            Ok(rows) => match found.last() {
                LegacyAnchor::Text { text } => Ok(rows.push(default_anchor(text@, now))),
                LegacyAnchor::Structured { anchor } => Ok(rows.push(anchor.model())),
                LegacyAnchor::Unusable => Ok(rows),
                LegacyAnchor::Invalid { error } => Err("invalid legacy anchor: "@ + error@),
            },
        }
    }
}

/// The anchors that were found.
pub open spec fn read_all(found: Seq<(String, Vec<LegacyAnchor>)>, now: Seq<char>) -> Result<
    Seq<(Seq<char>, Seq<AnchorModel>)>,
    Seq<char>,
>
    decreases found.len(),
{
    if found.len() == 0 {
        Ok(Seq::empty())
    } else {
        match read_all(found.drop_last(), now) {
            Err(e) => Err(e),
            Ok(list) => match read_rows(found.last().1@, now) {
                Err(e) => Err(e),
                Ok(rows) => Ok(put(list, found.last().0@, rows)),
            },
        }
    }
}

/// Some anchor has this text, but for white space at its ends.
pub open spec fn has_text(rows: Seq<AnchorModel>, text: Seq<char>) -> bool {
    exists|i: int|
        0 <= i < rows.len() && text::trimmed((#[trigger] rows[i]).text) == text::trimmed(text)
}

/// The anchors, and the default texts that none of them has.
pub open spec fn with_texts(rows: Seq<AnchorModel>, texts: Seq<String>, now: Seq<char>) -> Seq<
    AnchorModel,
>
    decreases texts.len(),
{
    if texts.len() == 0 {
        rows
    } else {
        let before = with_texts(rows, texts.drop_last(), now);
        if has_text(before, texts.last()@) {
            before
        } else {
            before.push(default_anchor(texts.last()@, now))
        }
    }
}

/// The anchors, and the defaults that are missing among them.
pub open spec fn with_defaults(
    list: Seq<(Seq<char>, Seq<AnchorModel>)>,
    defaults: Seq<(String, Vec<String>)>,
    now: Seq<char>,
) -> Seq<(Seq<char>, Seq<AnchorModel>)>
    decreases defaults.len(),
{
    if defaults.len() == 0 {
        list
    } else {
        let before = with_defaults(list, defaults.drop_last(), now);
        let category = defaults.last().0@;
        put(
            before,
            category,
            with_texts(rows_under(before, category), defaults.last().1@, now),
        )
    }
}

proof fn lemma_rows_error_stays(found: Seq<LegacyAnchor>, n: int, now: Seq<char>)
    requires
        0 <= n <= found.len(),
        read_rows(found.take(n), now) is Err,
    ensures
        read_rows(found, now) == read_rows(found.take(n), now),
    decreases found.len() - n,
{
    if n < found.len() {
        assert(found.take(n + 1).drop_last() =~= found.take(n));
        lemma_rows_error_stays(found, n + 1, now);
    } else {
        assert(found.take(n) =~= found);
    }
}

proof fn lemma_error_stays(found: Seq<(String, Vec<LegacyAnchor>)>, n: int, now: Seq<char>)
    requires
        0 <= n <= found.len(),
        read_all(found.take(n), now) is Err,
    ensures
        read_all(found, now) == read_all(found.take(n), now),
    decreases found.len() - n,
{
    if n < found.len() {
        assert(found.take(n + 1).drop_last() =~= found.take(n));
        lemma_error_stays(found, n + 1, now);
    } else {
        assert(found.take(n) =~= found);
    }
}

fn import_rows(found: &Vec<LegacyAnchor>, now: &str) -> (result: Result<Vec<Anchor>, String>)
    ensures
        match (result, read_rows(found@, now@)) {
            (Ok(rows), Ok(read)) => models(rows@) == read,
            (Err(told), Err(e)) => told@ == e,
            _ => false,
        },
{
    let mut rows: Vec<Anchor> = Vec::new();
    let mut i: usize = 0;
    assert(models(rows@) =~= Seq::<AnchorModel>::empty());
    while i < found.len()
        invariant
            i <= found@.len(),
            read_rows(found@.take(i as int), now@) == Ok::<_, Seq<char>>(models(rows@)),
        decreases found@.len() - i,
    {
        let ghost before = rows@;
        proof {
            assert(found@.take(i + 1).drop_last() =~= found@.take(i as int));
            assert(found@.take(i + 1).last() == found@[i as int]);
        }
        match &found[i] {
            LegacyAnchor::Text { text } => {
                rows.push(
                    Anchor::new(text.clone(), "default", WEIGHT_ONE, "global", None, now),
                );
                assert(models(rows@) =~= models(before).push(default_anchor(text@, now@)));
            },
            LegacyAnchor::Structured { anchor } => {
                rows.push(anchor.copy());
                assert(models(rows@) =~= models(before).push(anchor.model()));
            },
            LegacyAnchor::Unusable => {},
            LegacyAnchor::Invalid { error } => {
                proof {
                    lemma_rows_error_stays(found@, i + 1, now@);
                }
                return Err(text::join2("invalid legacy anchor: ", error));
            },
        }
        i = i + 1;
    }
    assert(found@.take(found@.len() as int) =~= found@);
    Ok(rows)
}

fn same_text_there(rows: &Vec<Anchor>, wanted: &str) -> (result: bool)
    ensures
        result == has_text(models(rows@), wanted@),
{
    let trimmed = text::trim(wanted);
    let mut i: usize = 0;
    while i < rows.len()
        invariant
            i <= rows@.len(),
            trimmed@ == text::trimmed(wanted@),
            forall|j: int|
                0 <= j < i ==> text::trimmed((#[trigger] rows@[j]).text@) != trimmed@,
        decreases rows@.len() - i,
    {
        let other = text::trim(&rows[i].text);
        if text::same(&other, &trimmed) {
            assert(text::trimmed(models(rows@)[i as int].text) == trimmed@);
            return true;
        }
        i = i + 1;
    }
    assert forall|j: int| 0 <= j < models(rows@).len() implies text::trimmed(
        (#[trigger] models(rows@)[j]).text,
    ) != trimmed@ by {
        assert(text::trimmed(rows@[j].text@) != trimmed@);
    }
    false
}

fn add_texts(rows: &mut Vec<Anchor>, texts: &Vec<String>, now: &str)
    ensures
        models(final(rows)@) == with_texts(models(old(rows)@), texts@, now@),
{
    let mut i: usize = 0;
    while i < texts.len()
        invariant
            i <= texts@.len(),
            models(rows@) == with_texts(models(old(rows)@), texts@.take(i as int), now@),
        decreases texts@.len() - i,
    {
        let ghost before = rows@;
        proof {
            assert(texts@.take(i + 1).drop_last() =~= texts@.take(i as int));
            assert(texts@.take(i + 1).last() == texts@[i as int]);
        }
        if !same_text_there(rows, &texts[i]) {
            rows.push(Anchor::new(texts[i].clone(), "default", WEIGHT_ONE, "global", None, now));
            assert(models(rows@) =~= models(before).push(default_anchor(texts@[i as int]@, now@)));
        }
        i = i + 1;
    }
    assert(texts@.take(texts@.len() as int) =~= texts@);
}

/// Takes the anchors of a category out, leaving none.
pub(crate) fn take_rows(anchors: &mut Anchors, category: &str) -> (result: Vec<Anchor>)
    ensures
        entries(*final(anchors)) == put(
            entries(*old(anchors)),
            category@,
            Seq::<Anchor>::empty(),
        ),
        result@ == rows_under(entries(*old(anchors)), category@),
{
    let nothing: Vec<Anchor> = Vec::new();
    match put_rows(anchors, category.to_owned(), nothing) {
        Some(rows) => rows,
        None => Vec::new(),
    }
}

pub(crate) proof fn lemma_put_twice<X>(list: Seq<(Seq<char>, X)>, key: Seq<char>, first: X, second: X)
    ensures
        put(put(list, key, first), key, second) == put(list, key, second),
{
    lemma_place(list, key);
    law_put_is_found(list, key, first, key);
    let once = put(list, key, first);
    assert forall|i: int| 0 <= i < place(list, key) implies (#[trigger] once[i]).0 != key by {
        assert(list[i].0 != key);
    }
    lemma_place_is(once, key, place(list, key));
    assert(put(once, key, second) =~= put(list, key, second));
}

/// The anchors that importing an older file gives, unless it cannot be read.
pub open spec fn imported(
    found: Option<Seq<(String, Vec<LegacyAnchor>)>>,
    defaults: Seq<(String, Vec<String>)>,
    now: Seq<char>,
) -> Result<Seq<(Seq<char>, Seq<AnchorModel>)>, Seq<char>> {
    match found {
        None => Ok(with_defaults(Seq::empty(), defaults, now)),
        Some(rows) => match read_all(rows, now) {
            Ok(list) => Ok(with_defaults(list, defaults, now)),
            Err(e) => Err(e),
        },
    }
}

/// The anchors are those that were to be imported, if they are sound.
pub open spec fn import_result(
    list: Result<Seq<(Seq<char>, Seq<AnchorModel>)>, Seq<char>>,
    item_bytes: usize,
    result: Result<Anchors, String>,
) -> bool {
    match list {
        Ok(list) => match result {
            Ok(anchors) => modelled(entries(anchors)) == list && fault(list, item_bytes) is None,
            Err(told) => fault(list, item_bytes) == Some(told@),
        },
        Err(e) => result is Err && result->Err_0@ == e,
    }
}

/// Imports the anchors that were found in an older file, and adds the defaults
/// that are missing. Where anything is wrong, nothing is imported.
pub fn import_found(
    found: Option<Vec<(String, Vec<LegacyAnchor>)>>,
    defaults: &Vec<(String, Vec<String>)>,
    now: &str,
    item_bytes: usize,
) -> (result: Result<Anchors, String>)
    ensures
        import_result(
            imported(
                match found {
                    Some(rows) => Some(rows@),
                    None => None,
                },
                defaults@,
                now@,
            ),
            item_bytes,
            result,
        ),
{
    let mut anchors = no_anchors();
    assert(modelled(entries(anchors)) =~= Seq::<(Seq<char>, Seq<AnchorModel>)>::empty());
    match found {
        None => {},
        Some(rows) => {
            let mut i: usize = 0;
            while i < rows.len()
                invariant
                    i <= rows@.len(),
                    found == Some(rows),
                    read_all(rows@.take(i as int), now@) == Ok::<_, Seq<char>>(
                        modelled(entries(anchors)),
                    ),
                decreases rows@.len() - i,
            {
                proof {
                    assert(rows@.take(i + 1).drop_last() =~= rows@.take(i as int));
                    assert(rows@.take(i + 1).last() == rows@[i as int]);
                }
                match import_rows(&rows[i].1, now) {
                    Ok(read) => {
                        proof {
                            lemma_modelled(entries(anchors), rows@[i as int].0@, read@);
                        }
                        put_rows(&mut anchors, rows[i].0.clone(), read);
                    },
                    Err(e) => {
                        proof {
                            lemma_error_stays(rows@, i + 1, now@);
                        }
                        return Err(e);
                    },
                }
                i = i + 1;
            }
            assert(rows@.take(rows@.len() as int) =~= rows@);
        },
    }
    let ghost read = modelled(entries(anchors));
    let mut i: usize = 0;
    while i < defaults.len()
        invariant
            i <= defaults@.len(),
            modelled(entries(anchors)) == with_defaults(read, defaults@.take(i as int), now@),
        decreases defaults@.len() - i,
    {
        let ghost before = entries(anchors);
        let ghost category = defaults@[i as int].0@;
        proof {
            assert(defaults@.take(i + 1).drop_last() =~= defaults@.take(i as int));
            assert(defaults@.take(i + 1).last() == defaults@[i as int]);
        }
        let mut rows = take_rows(&mut anchors, &defaults[i].0);
        add_texts(&mut rows, &defaults[i].1, now);
        proof {
            lemma_put_twice(before, category, Seq::<Anchor>::empty(), rows@);
            lemma_modelled(before, category, rows@);
        }
        put_rows(&mut anchors, defaults[i].0.clone(), rows);
        i = i + 1;
    }
    assert(defaults@.take(defaults@.len() as int) =~= defaults@);
    match validate_anchors(&anchors, item_bytes) {
        Ok(_) => Ok(anchors),
        Err(e) => Err(e),
    }
}

/// Imports anchors from the contents of an older file, where there is one, and
/// adds the defaults that are missing. Both anchors with a text alone and anchors
/// with their settings are taken; `read` reads the object of one of the latter.
/// Where anything is wrong, nothing is imported.
pub fn import_anchors(
    contents: Option<&str>,
    read: impl Fn(&str) -> Result<Anchor, String>,
    defaults: &Vec<(String, Vec<String>)>,
    now: &str,
    item_bytes: usize,
) -> (result: Result<Anchors, String>)
    requires
        forall|object: &str| #[trigger] call_requires(read, (object,)),
    ensures
        match contents {
            None => import_result(imported(None, defaults@, now@), item_bytes, result),
            Some(text) => match json::json_rows(text@) {
                Err(why) => result is Err && result->Err_0@ == "invalid anchors.json: "@ + why,
                Ok(rows) => exists|found: Seq<(String, Vec<LegacyAnchor>)>|
                    {
                        &&& #[trigger] all_read_as(read, forms_of(rows), found)
                        &&& import_result(
                            imported(Some(found), defaults@, now@),
                            item_bytes,
                            result,
                        )
                    },
            },
        },
{
    let text = match contents {
        None => {
            return import_found(None, defaults, now, item_bytes);
        },
        Some(text) => text,
    };
    let list = match legacy_entries(text) {
        Ok(list) => list,
        Err(e) => {
            return Err(e);
        },
    };
    let ghost forms = entry_models(list@);
    let mut found: Vec<(String, Vec<LegacyAnchor>)> = Vec::new();
    let mut i: usize = 0;
    while i < list.len()
        invariant
            i <= list@.len(),
            forms == entry_models(list@),
            found@.len() == i,
            forall|object: &str| #[trigger] call_requires(read, (object,)),
            forall|j: int| 0 <= j < i ==> row_read_as(read, forms[j], #[trigger] found@[j]),
        decreases list@.len() - i,
    {
        let anchors = read_row(&list[i].1, &read);
        let row = (list[i].0.clone(), anchors);
        assert(row_read_as(read, forms[i as int], row));
        found.push(row);
        i = i + 1;
    }
    assert(all_read_as(read, forms, found@));
    import_found(Some(found), defaults, now, item_bytes)
}

proof fn lemma_texts_stay(rows: Seq<AnchorModel>, texts: Seq<String>, now: Seq<char>, text: Seq<char>)
    requires
        has_text(rows, text),
    ensures
        has_text(with_texts(rows, texts, now), text),
    decreases texts.len(),
{
    if texts.len() > 0 {
        lemma_texts_stay(rows, texts.drop_last(), now, text);
        let before = with_texts(rows, texts.drop_last(), now);
        let after = with_texts(rows, texts, now);
        let i = choose|i: int|
            0 <= i < before.len() && text::trimmed((#[trigger] before[i]).text) == text::trimmed(
                text,
            );
        assert(after[i] == before[i]);
    }
}

proof fn lemma_texts_are_there(rows: Seq<AnchorModel>, texts: Seq<String>, now: Seq<char>)
    ensures
        forall|i: int|
            0 <= i < texts.len() ==> has_text(
                with_texts(rows, texts, now),
                (#[trigger] texts[i])@,
            ),
    decreases texts.len(),
{
    if texts.len() > 0 {
        let head = texts.drop_last();
        let before = with_texts(rows, head, now);
        let after = with_texts(rows, texts, now);
        lemma_texts_are_there(rows, head, now);
        assert forall|i: int| 0 <= i < texts.len() implies has_text(after, (#[trigger] texts[i])@) by {
            if i < head.len() {
                assert(has_text(before, head[i]@));
                lemma_texts_stay(before, seq![texts.last()], now, texts[i]@);
                assert(seq![texts.last()].drop_last() =~= Seq::<String>::empty());
                assert(with_texts(before, seq![texts.last()].drop_last(), now) == before);
                assert(with_texts(before, seq![texts.last()], now) == after);
            } else if !has_text(before, texts[i]@) {
                assert(text::trimmed(after[before.len() as int].text) == text::trimmed(
                    texts[i]@,
                ));
            }
        }
    }
}

proof fn lemma_nothing_missing(rows: Seq<AnchorModel>, texts: Seq<String>, now: Seq<char>)
    requires
        forall|i: int| 0 <= i < texts.len() ==> has_text(rows, (#[trigger] texts[i])@),
    ensures
        with_texts(rows, texts, now) == rows,
    decreases texts.len(),
{
    if texts.len() > 0 {
        let head = texts.drop_last();
        assert forall|i: int| 0 <= i < head.len() implies has_text(rows, (#[trigger] head[i])@) by {
            assert(has_text(rows, texts[i]@));
        }
        lemma_nothing_missing(rows, head, now);
        assert(has_text(rows, texts[texts.len() - 1]@));
    }
}

/// Defaults are added once: adding them again, at whatever time, changes
/// nothing.
pub proof fn law_defaults_are_added_once(
    rows: Seq<AnchorModel>,
    texts: Seq<String>,
    now: Seq<char>,
    later: Seq<char>,
)
    ensures
        with_texts(with_texts(rows, texts, now), texts, later) == with_texts(rows, texts, now),
{
    lemma_texts_are_there(rows, texts, now);
    lemma_nothing_missing(with_texts(rows, texts, now), texts, later);
}

/// A weight is a number that is neither negative nor larger than a number of
/// half the precision can be.
pub proof fn law_weights_are_ordinary_numbers(weight: u64)
    ensures
        valid_weight(weight) <==> crate::ieee::reaches(weight, 0) && crate::ieee::reaches(
            0x47EF_FFFF_E000_0000,
            weight,
        ),
{
}

proof fn lemma_sound_rows(rows: Seq<AnchorModel>, item_bytes: usize, i: int)
    requires
        rows_fault(rows, item_bytes) is None,
        0 <= i < rows.len(),
    ensures
        anchor_fault(rows[i], item_bytes) is None,
    decreases rows.len(),
{
    if i < rows.len() - 1 {
        lemma_sound_rows(rows.drop_last(), item_bytes, i);
        assert(rows.drop_last()[i] == rows[i]);
    }
}

/// Sound anchors stand in categories with a name of at most 256 bytes, have
/// texts that the model can take, and weights that are neither negative nor
/// without bound.
pub proof fn law_sound_anchors_can_be_used(
    list: Seq<(Seq<char>, Seq<AnchorModel>)>,
    item_bytes: usize,
    i: int,
    j: int,
)
    requires
        fault(list, item_bytes) is None,
        0 <= i < list.len(),
        0 <= j < list[i].1.len(),
    ensures
        text::trimmed(list[i].0).len() > 0,
        encode_utf8(list[i].0).len() <= 256,
        encode_utf8(list[i].1[j].text).len() <= item_bytes,
        crate::ieee::reaches(list[i].1[j].weight, 0),
        crate::ieee::reaches(0x47EF_FFFF_E000_0000, list[i].1[j].weight),
{
    law_sound_anchors(list, item_bytes);
    assert(entry_fault(list[i], item_bytes) is None);
    lemma_sound_rows(list[i].1, item_bytes, j);
    law_weights_are_ordinary_numbers(list[i].1[j].weight);
}

/// Adding texts leaves the anchors that are there in their places, and adds, for
/// each text that none of them has, one anchor of weight one that speaks for
/// every program.
pub proof fn law_texts_are_added_behind(
    rows: Seq<AnchorModel>,
    texts: Seq<String>,
    now: Seq<char>,
    i: int,
)
    ensures
        with_texts(rows, texts, now).len() >= rows.len(),
        0 <= i < rows.len() ==> with_texts(rows, texts, now)[i] == rows[i],
        0 <= i < texts.len() ==> has_text(with_texts(rows, texts, now), texts[i]@),
        rows.len() <= i < with_texts(rows, texts, now).len() ==> {
            let added = with_texts(rows, texts, now)[i];
            &&& added.source == "default"@
            &&& added.weight == 0x3FF0_0000_0000_0000
            &&& added.scope == "global"@
            &&& added.process_name is None
            &&& added.added_at == now
            &&& exists|k: int| 0 <= k < texts.len() && (#[trigger] texts[k])@ == added.text
        },
    decreases texts.len(),
{
    if texts.len() > 0 {
        let head = texts.drop_last();
        let before = with_texts(rows, head, now);
        let after = with_texts(rows, texts, now);
        law_texts_are_added_behind(rows, head, now, i);
        if 0 <= i < texts.len() {
            if i < head.len() {
                assert(head[i] == texts[i]);
                let k = choose|k: int|
                    0 <= k < before.len() && text::trimmed((#[trigger] before[k]).text)
                        == text::trimmed(head[i]@);
                assert(after[k] == before[k]);
            } else if !has_text(before, texts.last()@) {
                assert(after[after.len() - 1] == default_anchor(texts.last()@, now));
            }
        }
        if rows.len() <= i < after.len() {
            if i < before.len() {
                let k = choose|k: int|
                    0 <= k < head.len() && (#[trigger] head[k])@ == before[i].text;
                assert(texts[k]@ == after[i].text);
            } else {
                assert(texts[texts.len() - 1]@ == after[i].text);
            }
        }
    }
}

/// With the defaults every default category has its texts, and what a category
/// had before it keeps, in its place.
pub proof fn law_defaults_keep_what_is_there(
    list: Seq<(Seq<char>, Seq<AnchorModel>)>,
    defaults: Seq<(String, Vec<String>)>,
    now: Seq<char>,
    category: Seq<char>,
    i: int,
)
    ensures
        listed(list, category) ==> listed(with_defaults(list, defaults, now), category),
        rows_under(with_defaults(list, defaults, now), category).len() >= rows_under(
            list,
            category,
        ).len(),
        0 <= i < rows_under(list, category).len() ==> rows_under(
            with_defaults(list, defaults, now),
            category,
        )[i] == rows_under(list, category)[i],
        defaults.len() > 0 && defaults.last().0@ == category && 0 <= i < defaults.last().1@.len()
            ==> has_text(
            rows_under(with_defaults(list, defaults, now), category),
            defaults.last().1@[i]@,
        ),
    decreases defaults.len(),
{
    if defaults.len() > 0 {
        let before = with_defaults(list, defaults.drop_last(), now);
        law_defaults_keep_what_is_there(list, defaults.drop_last(), now, category, i);
        let name = defaults.last().0@;
        let rows = with_texts(rows_under(before, name), defaults.last().1@, now);
        law_put_is_found(before, name, rows, category);
        law_texts_are_added_behind(rows_under(before, name), defaults.last().1@, now, i);
    }
}

/// What is read of an old file keeps its order: a text alone becomes an anchor of
/// weight one for every program, an anchor stays as it is, and what is neither is
/// passed over. One that cannot be read makes all of it an error.
pub proof fn law_old_anchors_are_taken_over(found: Seq<LegacyAnchor>, last: LegacyAnchor, now: Seq<char>)
    ensures
        last is Invalid ==> read_rows(found.push(last), now) is Err,
        read_rows(found, now) is Err ==> read_rows(found.push(last), now) is Err,
        read_rows(found, now) matches Ok(rows) ==> {
            &&& last is Unusable ==> read_rows(found.push(last), now) == Ok::<
                Seq<AnchorModel>,
                Seq<char>,
            >(rows)
            &&& last matches LegacyAnchor::Structured { anchor } ==> read_rows(
                found.push(last),
                now,
            ) == Ok::<Seq<AnchorModel>, Seq<char>>(rows.push(anchor.model()))
            &&& last matches LegacyAnchor::Text { text } ==> {
                &&& read_rows(found.push(last), now) matches Ok(more)
                &&& more.drop_last() == rows
                &&& more.last().text == text@
                &&& more.last().weight == 0x3FF0_0000_0000_0000
                &&& more.last().scope == "global"@
                &&& more.last().process_name is None
            }
        },
        read_rows(Seq::empty(), now) == Ok::<Seq<AnchorModel>, Seq<char>>(Seq::empty()),
{
    assert(found.push(last).drop_last() =~= found);
    assert(found.push(last).last() == last);
    if last is Text && read_rows(found, now) is Ok {
        let rows = read_rows(found, now)->Ok_0;
        assert(rows.push(default_anchor(last->Text_text@, now)).drop_last() =~= rows);
    }
}

} // verus!
