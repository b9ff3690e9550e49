//! Small sets and tallies of names.
use crate::text;
use vstd::prelude::*;
use vstd::string::*;

verus! {

/// A set of names.
#[derive(Debug)]
pub struct NameSet {
    pub names: Vec<String>,
}

impl NameSet {
    /// The name is in the set.
    pub open spec fn has(&self, name: Seq<char>) -> bool {
        exists|i: int| 0 <= i < self.names@.len() && (#[trigger] self.names@[i])@ == name
    }

    /// A set without names.
    pub fn new() -> (result: Self)
        ensures
            forall|n: Seq<char>| !#[trigger] result.has(n),
    {
        NameSet { names: Vec::new() }
    }

    /// The name is in the set.
    pub fn contains(&self, name: &str) -> (result: bool)
        ensures
            result == self.has(name@),
    {
        let mut i: usize = 0;
        while i < self.names.len()
            invariant
                i <= self.names@.len(),
                forall|j: int| 0 <= j < i ==> (#[trigger] self.names@[j])@ != name@,
            decreases self.names@.len() - i,
        {
            if text::same(&self.names[i], name) {
                return true;
            }
            i = i + 1;
        }
        false
    }

    /// Puts the name in.
    pub fn insert(&mut self, name: &str)
        ensures
            forall|n: Seq<char>| #[trigger]
                final(self).has(n) == (old(self).has(n) || n == name@),
    {
        if !self.contains(name) {
            let ghost before = *self;
            self.names.push(name.to_owned());
            assert forall|n: Seq<char>| #[trigger] self.has(n) == (before.has(n) || n
                == name@) by {
                if before.has(n) {
                    let i = choose|i: int|
                        0 <= i < before.names@.len() && (#[trigger] before.names@[i])@ == n;
                    assert(self.names@[i]@ == n);
                }
                if n == name@ {
                    assert(self.names@[before.names@.len() as int]@ == n);
                }
                if self.has(n) {
                    let i = choose|i: int|
                        0 <= i < self.names@.len() && (#[trigger] self.names@[i])@ == n;
                    if i < before.names@.len() {
                        assert(before.names@[i]@ == n);
                    }
                }
            }
        }
    }

    /// Takes the name out.
    pub fn remove(&mut self, name: &str)
        ensures
            forall|n: Seq<char>| #[trigger]
                final(self).has(n) == (old(self).has(n) && n != name@),
    {
        let ghost before = *self;
        let mut kept: Vec<String> = Vec::new();
        let mut i: usize = 0;
        while i < self.names.len()
            invariant
                i <= self.names@.len(),
                *self == before,
                forall|j: int|
                    0 <= j < kept@.len() ==> (#[trigger] kept@[j])@ != name@ && before.has(
                        kept@[j]@,
                    ),
                forall|j: int|
                    0 <= j < i && (#[trigger] before.names@[j])@ != name@ ==> exists|k: int|
                        0 <= k < kept@.len() && (#[trigger] kept@[k])@ == before.names@[j]@,
            decreases self.names@.len() - i,
        {
            if !text::same(&self.names[i], name) {
                let ghost so_far = kept@;
                kept.push(self.names[i].clone());
                assert(before.has(before.names@[i as int]@));
                assert forall|j: int|
                    0 <= j < i + 1 && (#[trigger] before.names@[j])@
                        != name@ implies exists|k: int|
                    0 <= k < kept@.len() && (#[trigger] kept@[k])@ == before.names@[j]@ by {
                    if j < i {
                        let k = choose|k: int|
                            0 <= k < so_far.len() && (#[trigger] so_far[k])@
                                == before.names@[j]@;
                        assert(kept@[k]@ == before.names@[j]@);
                    } else {
                        assert(kept@[so_far.len() as int]@ == before.names@[j]@);
                    }
                }
            }
            i = i + 1;
        }
        let ghost rest = kept@;
        self.names = kept;
        assert(self.names@ == rest);
        assert forall|n: Seq<char>| #[trigger] self.has(n) == (before.has(n) && n != name@) by {
            if before.has(n) && n != name@ {
                let j = choose|j: int|
                    0 <= j < before.names@.len() && (#[trigger] before.names@[j])@ == n;
                assert(before.names@[j]@ != name@);
                let k = choose|k: int|
                    0 <= k < rest.len() && (#[trigger] rest[k])@ == before.names@[j]@;
                assert(self.names@[k]@ == n);
            }
            if self.has(n) {
                let k = choose|k: int|
                    0 <= k < self.names@.len() && (#[trigger] self.names@[k])@ == n;
                assert(rest[k]@ != name@ && before.has(rest[k]@));
            }
        }
    }
}

/// How often each name was counted.
#[derive(Debug)]
pub struct Tally {
    pub counts: Vec<(String, u64)>,
}

/// The count that a list holds for a name: that of its first entry.
pub open spec fn count_in(counts: Seq<(String, u64)>, name: Seq<char>) -> u64
    decreases counts.len(),
{
    if counts.len() == 0 {
        0
    } else if counts[0].0@ == name {
        counts[0].1
    } else {
        count_in(counts.drop_first(), name)
    }
}

proof fn lemma_count_at(counts: Seq<(String, u64)>, name: Seq<char>, at: int)
    requires
        0 <= at <= counts.len(),
        forall|i: int| 0 <= i < at ==> (#[trigger] counts[i]).0@ != name,
    ensures
        at == counts.len() ==> count_in(counts, name) == 0,
        at < counts.len() && counts[at].0@ == name ==> count_in(counts, name) == counts[at].1,
    decreases at,
{
    if at > 0 {
        assert(counts[0].0@ != name);
        let rest = counts.drop_first();
        assert forall|i: int| 0 <= i < at - 1 implies (#[trigger] rest[i]).0@ != name by {
            assert(rest[i] == counts[i + 1]);
        }
        lemma_count_at(rest, name, at - 1);
    }
}

/// Two lists with the same names, and the same counts but at one place, give
/// the same count for every name but that of the place.
proof fn lemma_count_elsewhere(
    a: Seq<(String, u64)>,
    b: Seq<(String, u64)>,
    at: int,
    name: Seq<char>,
)
    requires
        0 <= at <= a.len(),
        a.len() <= b.len() <= at + 1 || a.len() == b.len(),
        at < b.len() ==> b[at].0@ != name,
        at < a.len() ==> a[at].0@ != name,
        forall|i: int| 0 <= i < a.len() && i < b.len() && i != at ==> (#[trigger] a[i]) == b[i],
    ensures
        count_in(a, name) == count_in(b, name),
    decreases b.len(),
{
    if b.len() > 0 {
        if a.len() == 0 {
            assert(at == 0 && b.len() == 1);
            assert(count_in(b.drop_first(), name) == 0);
        } else {
            let ra = a.drop_first();
            let rb = b.drop_first();
            if at == 0 {
                assert(ra =~= rb);
            } else {
                assert(a[0] == b[0]);
                assert forall|i: int|
                    0 <= i < ra.len() && i < rb.len() && i != at - 1 implies (#[trigger] ra[i])
                    == rb[i] by {
                    assert(a[i + 1] == b[i + 1]);
                }
                lemma_count_elsewhere(ra, rb, at - 1, name);
            }
        }
    }
}

proof fn lemma_counts_agree(a: Seq<(String, u64)>, b: Seq<(String, u64)>, name: Seq<char>)
    requires
        a.len() == b.len(),
        forall|i: int| 0 <= i < a.len() ==> (#[trigger] a[i]).0@ == b[i].0@ && a[i].1 == b[i].1,
    ensures
        count_in(a, name) == count_in(b, name),
    decreases a.len(),
{
    if a.len() > 0 {
        let rest_a = a.drop_first();
        let rest_b = b.drop_first();
        assert(a[0].0@ == b[0].0@);
        assert forall|i: int| 0 <= i < rest_a.len() implies (#[trigger] rest_a[i]).0@
            == rest_b[i].0@ && rest_a[i].1 == rest_b[i].1 by {
            assert(rest_a[i] == a[i + 1]);
            assert(rest_b[i] == b[i + 1]);
        }
        lemma_counts_agree(rest_a, rest_b, name);
    }
}

impl Tally {
    /// How often the name was counted.
    pub open spec fn of(&self, name: Seq<char>) -> u64 {
        count_in(self.counts@, name)
    }

    /// A tally without counts.
    pub fn new() -> (result: Self)
        ensures
            forall|n: Seq<char>| #[trigger] result.of(n) == 0,
    {
        Tally { counts: Vec::new() }
    }

    /// A second copy.
    pub fn copy(&self) -> (result: Self)
        ensures
            forall|n: Seq<char>| #[trigger] result.of(n) == self.of(n),
    {
        let mut counts: Vec<(String, u64)> = Vec::new();
        let mut i: usize = 0;
        while i < self.counts.len()
            invariant
                i <= self.counts@.len(),
                counts@.len() == i,
                forall|j: int|
                    0 <= j < i ==> (#[trigger] counts@[j]).0@ == self.counts@[j].0@ && counts@[j].1
                        == self.counts@[j].1,
            decreases self.counts@.len() - i,
        {
            counts.push((self.counts[i].0.clone(), self.counts[i].1));
            i = i + 1;
        }
        let result = Tally { counts };
        assert forall|n: Seq<char>| #[trigger] result.of(n) == self.of(n) by {
            lemma_counts_agree(result.counts@, self.counts@, n);
        }
        result
    }

    /// How often the name was counted.
    pub fn get(&self, name: &str) -> (result: u64)
        ensures
            result == self.of(name@),
    {
        let mut i: usize = 0;
        while i < self.counts.len()
            invariant
                i <= self.counts@.len(),
                forall|j: int| 0 <= j < i ==> (#[trigger] self.counts@[j]).0@ != name@,
            decreases self.counts@.len() - i,
        {
            if text::same(&self.counts[i].0, name) {
                proof {
                    lemma_count_at(self.counts@, name@, i as int);
                }
                return self.counts[i].1;
            }
            i = i + 1;
        }
        proof {
            lemma_count_at(self.counts@, name@, i as int);
        }
        0
    }

    /// Counts the name once more.
    pub fn bump(&mut self, name: &str)
        requires
            old(self).of(name@) < u64::MAX,
        ensures
            forall|n: Seq<char>| #[trigger]
                final(self).of(n) == old(self).of(n) + if n == name@ {
                    1int
                } else {
                    0
                },
    {
        let ghost before = self.counts@;
        let mut i: usize = 0;
        while i < self.counts.len()
            invariant
                i <= self.counts@.len(),
                self.counts@ == before,
                forall|j: int| 0 <= j < i ==> (#[trigger] before[j]).0@ != name@,
                count_in(before, name@) < u64::MAX,
                before == old(self).counts@,
            decreases self.counts@.len() - i,
        {
            if text::same(&self.counts[i].0, name) {
                proof {
                    lemma_count_at(before, name@, i as int);
                }
                let mut entry = self.counts.remove(i);
                entry.1 = entry.1 + 1;
                self.counts.insert(i, entry);
                proof {
                    lemma_count_at(self.counts@, name@, i as int);
                    assert forall|n: Seq<char>| #[trigger] self.of(n) == count_in(before, n) + if n
                        == name@ {
                        1int
                    } else {
                        0
                    } by {
                        if n != name@ {
                            lemma_count_elsewhere(before, self.counts@, i as int, n);
                        }
                    }
                }
                return ;
            }
            i = i + 1;
        }
        proof {
            lemma_count_at(before, name@, i as int);
        }
        self.counts.push((name.to_owned(), 1));
        proof {
            lemma_count_at(self.counts@, name@, i as int);
            assert forall|n: Seq<char>| #[trigger] self.of(n) == count_in(before, n) + if n
                == name@ {
                1int
            } else {
                0
            } by {
                if n != name@ {
                    lemma_count_elsewhere(before, self.counts@, i as int, n);
                }
            }
        }
    }
}

} // verus!
