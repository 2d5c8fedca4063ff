//! Key-value labels, each key at most once.

use vstd::prelude::*;

verus! {

/// The map that a list of key-value pairs builds up: a later pair replaces an
/// earlier one with its key.
pub open spec fn pairs_map(pairs: Seq<(String, String)>) -> Map<Seq<char>, Seq<char>>
    decreases pairs.len(),
{
    if pairs.len() == 0 {
        Map::empty()
    } else {
        pairs_map(pairs.drop_last()).insert(pairs.last().0@, pairs.last().1@)
    }
}

/// Key-value labels.
#[derive(Debug)]
pub struct Labels {
    /// The labels, in the order in which their keys were first set.
    pub pairs: Vec<(String, String)>,
}

impl View for Labels {
    type V = Map<Seq<char>, Seq<char>>;

    open spec fn view(&self) -> Map<Seq<char>, Seq<char>> {
        pairs_map(self.pairs@)
    }
}

/// No key occurs in two pairs.
pub open spec fn keys_differ(pairs: Seq<(String, String)>) -> bool {
    forall|i: int, j: int| 0 <= i < j < pairs.len() ==> pairs[i].0@ != pairs[j].0@
}

/// The keys of the map are those of the pairs, and where no key occurs twice,
/// each pair is in the map.
proof fn lemma_pairs_map(pairs: Seq<(String, String)>)
    ensures
        forall|i: int|
            0 <= i < pairs.len() ==> pairs_map(pairs).contains_key((#[trigger] pairs[i]).0@),
        forall|key: Seq<char>| #[trigger]
            pairs_map(pairs).contains_key(key) ==> exists|i: int|
                0 <= i < pairs.len() && (#[trigger] pairs[i]).0@ == key,
        keys_differ(pairs) ==> forall|i: int|
            0 <= i < pairs.len() ==> pairs_map(pairs)[(#[trigger] pairs[i]).0@] == pairs[i].1@,
    decreases pairs.len(),
{
    if pairs.len() > 0 {
        let front = pairs.drop_last();
        let n = pairs.len() - 1;
        lemma_pairs_map(front);
        assert forall|i: int| 0 <= i < pairs.len() implies pairs_map(pairs).contains_key(
            (#[trigger] pairs[i]).0@,
        ) by {
            if i < n {
                assert(pairs_map(front).contains_key(front[i].0@));
            }
        }
        assert forall|key: Seq<char>| #[trigger] pairs_map(pairs).contains_key(key) implies exists|
            i: int,
        |
            0 <= i < pairs.len() && (#[trigger] pairs[i]).0@ == key by {
            if key == pairs[n].0@ {
            } else {
                assert(pairs_map(front).contains_key(key));
                let i = choose|i: int| 0 <= i < front.len() && (#[trigger] front[i]).0@ == key;
                assert(pairs[i] == front[i]);
            }
        }
        if keys_differ(pairs) {
            assert forall|i: int| 0 <= i < pairs.len() implies pairs_map(
                pairs,
            )[(#[trigger] pairs[i]).0@] == pairs[i].1@ by {
                if i < n {
                    assert(front[i] == pairs[i]);
                    assert(pairs[i].0@ != pairs[n].0@);
                    assert(pairs_map(front)[front[i].0@] == front[i].1@);
                }
            }
        }
    }
}

impl Labels {
    /// No key occurs twice.
    pub open spec fn wf(&self) -> bool {
        keys_differ(self.pairs@)
    }

    /// No labels.
    pub fn new() -> (labels: Self)
        ensures
            labels.wf(),
            labels@ == Map::<Seq<char>, Seq<char>>::empty(),
    {
        Labels { pairs: Vec::new() }
    }

    /// Sets a label, in place of one that has its key.
    pub fn insert(&mut self, key: String, value: String)
        requires
            old(self).wf(),
        ensures
            final(self).wf(),
            final(self)@ == old(self)@.insert(key@, value@),
    {
        let ghost before = self.pairs@;
        let ghost entry = (key, value);
        let mut i: usize = 0;
        while i < self.pairs.len() && self.pairs[i].0 != key
            invariant
                i <= self.pairs.len(),
                self.pairs@ == before,
                forall|j: int| 0 <= j < i ==> before[j].0@ != key@,
            decreases self.pairs.len() - i,
        {
            i += 1;
        }
        proof {
            lemma_pairs_map(before);
        }
        if i < self.pairs.len() {
            self.pairs[i] = (key, value);
            proof {
                let after = before.update(i as int, entry);
                assert(self.pairs@ == after);
                assert(keys_differ(after));
                lemma_pairs_map(after);
                assert(pairs_map(after) =~= pairs_map(before).insert(key@, value@)) by {
                    let expected = pairs_map(before).insert(key@, value@);
                    assert forall|k: Seq<char>| #[trigger]
                        pairs_map(after).contains_key(k) <==> expected.contains_key(k) by {
                        if pairs_map(after).contains_key(k) {
                            let j = choose|j: int|
                                0 <= j < after.len() && (#[trigger] after[j]).0@ == k;
                            assert(before[j].0@ == k);
                        }
                        if expected.contains_key(k) {
                            if k == key@ {
                                assert(after[i as int].0@ == k);
                            } else {
                                let j = choose|j: int|
                                    0 <= j < before.len() && (#[trigger] before[j]).0@ == k;
                                assert(after[j].0@ == k);
                            }
                        }
                    }
                    assert forall|k: Seq<char>| #[trigger]
                        pairs_map(after).contains_key(k) implies pairs_map(after)[k]
                        == expected[k] by {
                        let j = choose|j: int| 0 <= j < after.len() && (#[trigger] after[j]).0@ == k;
                        if j != i {
                            assert(after[j] == before[j]);
                            assert(before[j].0@ != before[i as int].0@);
                        }
                    }
                }
            }
        } else {
            self.pairs.push((key, value));
            proof {
                assert(self.pairs@.drop_last() =~= before);
                assert(self.pairs@.last() == entry);
            }
        }
    }

    /// Sets every label of a list, in order.
    pub fn extend(&mut self, pairs: &Vec<(String, String)>)
        requires
            old(self).wf(),
        ensures
            final(self).wf(),
            final(self)@ == old(self)@.union_prefer_right(pairs_map(pairs@)),
    {
        let ghost before = self@;
        let mut i: usize = 0;
        proof {
            assert(pairs@.take(0) =~= Seq::empty());
            assert(self@ =~= before.union_prefer_right(pairs_map(pairs@.take(0))));
        }
        while i < pairs.len()
            invariant
                i <= pairs.len(),
                self.wf(),
                self@ == before.union_prefer_right(pairs_map(pairs@.take(i as int))),
            decreases pairs.len() - i,
        {
            self.insert(pairs[i].0.clone(), pairs[i].1.clone());
            proof {
                let done = pairs@.take(i as int + 1);
                assert(done.drop_last() =~= pairs@.take(i as int));
                assert(done.last() == pairs@[i as int]);
                assert(self@ =~= before.union_prefer_right(pairs_map(done)));
            }
            i += 1;
        }
        proof {
            assert(pairs@.take(i as int) =~= pairs@);
        }
    }
}

/// A pair sets its own key and no other: it is there afterwards with its value,
/// and every other key is there as before.
pub proof fn a_pair_sets_its_own_key_only(
    pairs: Seq<(String, String)>,
    pair: (String, String),
    key: Seq<char>,
)
    ensures
        pairs_map(pairs.push(pair)).contains_key(pair.0@),
        pairs_map(pairs.push(pair))[pair.0@] == pair.1@,
        key != pair.0@ ==> pairs_map(pairs.push(pair)).contains_key(key) == pairs_map(
            pairs,
        ).contains_key(key),
        key != pair.0@ && pairs_map(pairs).contains_key(key) ==> pairs_map(pairs.push(pair))[key]
            == pairs_map(pairs)[key],
        !pairs_map(Seq::empty()).contains_key(key),
{
    assert(pairs.push(pair).drop_last() =~= pairs);
}

/// Labels in which no key occurs twice hold what their pairs say: each pair is
/// found by its key, and every key is that of a pair.
pub proof fn labels_hold_their_pairs(labels: Labels)
    requires
        labels.wf(),
    ensures
        forall|i: int|
            0 <= i < labels.pairs@.len() ==> labels@.contains_key((#[trigger] labels.pairs@[i]).0@)
                && labels@[labels.pairs@[i].0@] == labels.pairs@[i].1@,
        forall|key: Seq<char>| #[trigger]
            labels@.contains_key(key) ==> exists|i: int|
                0 <= i < labels.pairs@.len() && (#[trigger] labels.pairs@[i]).0@ == key,
{
    lemma_pairs_map(labels.pairs@);
}

} // verus!
