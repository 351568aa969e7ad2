//! A map from text to text, kept as a list of pairs in which no key occurs
//! twice.
use crate::text::{chars_of, same_chars};
use vstd::prelude::*;

verus! {

/// The map that a list of pairs stands for. Where a key occurs more than
/// once, its last pair counts.
pub open spec fn map_of(pairs: Seq<(Seq<char>, Seq<char>)>) -> Map<Seq<char>, Seq<char>>
    decreases pairs.len(),
{
    if pairs.len() == 0 {
        Map::empty()
    } else {
        map_of(pairs.drop_last()).insert(pairs.last().0, pairs.last().1)
    }
}

/// No key occurs in two pairs.
pub open spec fn distinct_keys(pairs: Seq<(Seq<char>, Seq<char>)>) -> bool {
    forall|i: int, j: int| 0 <= i < j < pairs.len() ==> pairs[i].0 != pairs[j].0
}

/// The keys of `map_of(pairs)` are the keys of the pairs, and a pair whose
/// key does not occur again gives its key's value.
pub proof fn lemma_map_of(pairs: Seq<(Seq<char>, Seq<char>)>)
    ensures
        forall|k: Seq<char>|
            #![trigger map_of(pairs).contains_key(k)]
            map_of(pairs).contains_key(k) <==> exists|i: int|
                0 <= i < pairs.len() && (#[trigger] pairs[i]).0 == k,
        forall|i: int|
            0 <= i < pairs.len() && (forall|j: int| i < j < pairs.len() ==> pairs[j].0 != pairs[i].0)
                ==> map_of(pairs)[(#[trigger] pairs[i]).0] == pairs[i].1,
    decreases pairs.len(),
{
    if pairs.len() > 0 {
        let rest = pairs.drop_last();
        let last = pairs.last();
        lemma_map_of(rest);
        assert forall|k: Seq<char>|
            #![trigger map_of(pairs).contains_key(k)]
            map_of(pairs).contains_key(k) <==> exists|i: int|
                0 <= i < pairs.len() && (#[trigger] pairs[i]).0 == k by {
            assert(map_of(pairs) == map_of(rest).insert(last.0, last.1));
            if map_of(pairs).contains_key(k) {
                if k == last.0 {
                    assert(pairs[pairs.len() - 1].0 == k);
                } else {
                    assert(map_of(rest).contains_key(k));
                    let i = choose|i: int| 0 <= i < rest.len() && (#[trigger] rest[i]).0 == k;
                    assert(pairs[i].0 == k);
                }
            }
            if exists|i: int| 0 <= i < pairs.len() && (#[trigger] pairs[i]).0 == k {
                let i = choose|i: int| 0 <= i < pairs.len() && (#[trigger] pairs[i]).0 == k;
                if i < rest.len() {
                    assert(rest[i].0 == k);
                    assert(map_of(rest).contains_key(k));
                }
            }
        }
        assert forall|i: int|
            0 <= i < pairs.len() && (forall|j: int|
                i < j < pairs.len() ==> pairs[j].0 != pairs[i].0) implies map_of(pairs)[(
        #[trigger] pairs[i]).0] == pairs[i].1 by {
            if i < rest.len() {
                assert(rest[i] == pairs[i]);
                assert(pairs[pairs.len() - 1].0 != pairs[i].0);
                assert forall|j: int| i < j < rest.len() implies rest[j].0 != rest[i].0 by {
                    assert(rest[j] == pairs[j]);
                }
            }
        }
    }
}

/// A map from text to text.
#[derive(Debug, PartialEq, Eq)]
pub struct StringMap {
    entries: Vec<(String, String)>,
}

impl Clone for StringMap {
    /// A map with the same entries.
    fn clone(&self) -> (map: StringMap)
        ensures
            map@ == self@,
    {
        StringMap::from_pairs(&self.entries)
    }
}

impl View for StringMap {
    type V = Map<Seq<char>, Seq<char>>;

    closed spec fn view(&self) -> Map<Seq<char>, Seq<char>> {
        map_of(self.entries.deep_view())
    }
}

impl StringMap {
    #[verifier::type_invariant]
    spec fn keys_occur_once(self) -> bool {
        distinct_keys(self.entries.deep_view())
    }

    /// The map without entries.
    pub fn new() -> (map: StringMap)
        ensures
            map@ == Map::<Seq<char>, Seq<char>>::empty(),
    {
        let entries: Vec<(String, String)> = Vec::new();
        assert(entries.deep_view() =~= Seq::empty());
        StringMap { entries }
    }

    /// The number of entries.
    pub fn len(&self) -> (n: usize)
        ensures
            n == self@.len(),
            self@.dom().finite(),
    {
        proof {
            use_type_invariant(self);
            lemma_len(self.entries.deep_view());
        }
        self.entries.len()
    }

    /// The place of `key` among the entries.
    fn position(&self, key: &str) -> (at: Option<usize>)
        ensures
            match at {
                Some(i) => i < self.entries.len() && self.entries.deep_view()[i as int].0 == key@,
                None => forall|j: int|
                    0 <= j < self.entries.len() ==> (#[trigger] self.entries.deep_view()[j]).0
                        != key@,
            },
    {
        let wanted = chars_of(key);
        let mut i: usize = 0;
        while i < self.entries.len()
            invariant
                i <= self.entries.len(),
                wanted@ == key@,
                forall|j: int| 0 <= j < i ==> (#[trigger] self.entries.deep_view()[j]).0 != key@,
            decreases self.entries.len() - i,
        {
            assert(self.entries.deep_view()[i as int] == self.entries@[i as int].deep_view());
            let name = chars_of(self.entries[i].0.as_str());
            if same_chars(wanted.as_slice(), name.as_slice()) {
                return Some(i);
            }
            i += 1;
        }
        None
    }

    /// The value of `key`.
    pub fn get(&self, key: &str) -> (value: Option<&str>)
        ensures
            value.deep_view() == if self@.contains_key(key@) {
                Some(self@[key@])
            } else {
                None
            },
    {
        proof {
            use_type_invariant(self);
            lemma_map_of(self.entries.deep_view());
        }
        match self.position(key) {
            Some(i) => {
                assert(self.entries.deep_view()[i as int] == self.entries@[i as int].deep_view());
                Some(self.entries[i].1.as_str())
            },
            None => None,
        }
    }

    /// Gives `key` the value `value`, in place of the value it had, if any.
    pub fn insert(&mut self, key: String, value: String)
        ensures
            final(self)@ == old(self)@.insert(key@, value@),
    {
        proof {
            use_type_invariant(&*self);
        }
        let found = self.position(key.as_str());
        let ghost before = self.entries.deep_view();
        let ghost k = key@;
        let ghost v = value@;
        let mut entries: Vec<(String, String)> = Vec::new();
        assert(entries.deep_view() =~= Seq::empty());
        std::mem::swap(&mut entries, &mut self.entries);
        match found {
            Some(i) => {
                entries.set(i, (key, value));
                proof {
                    let after = entries.deep_view();
                    assert(after =~= before.update(i as int, (k, v)));
                    lemma_map_of(before);
                    lemma_map_of(after);
                    assert forall|a: int, b: int| 0 <= a < b < after.len() implies after[a].0
                        != after[b].0 by {
                        assert(after[a].0 == before[a].0);
                        assert(after[b].0 == before[b].0);
                    }
                    assert forall|q: Seq<char>|
                        map_of(after).contains_key(q) <==> map_of(before).insert(k, v).contains_key(
                            q,
                        ) by {
                        if map_of(after).contains_key(q) {
                            let j = choose|j: int| 0 <= j < after.len() && (#[trigger] after[j]).0 == q;
                            assert(before[j].0 == q);
                        }
                        if map_of(before).contains_key(q) {
                            let j = choose|j: int|
                                0 <= j < before.len() && (#[trigger] before[j]).0 == q;
                            assert(after[j].0 == q);
                        }
                        if q == k {
                            assert(after[i as int].0 == q);
                        }
                    }
                    assert forall|q: Seq<char>| map_of(after).contains_key(q) implies map_of(after)[q]
                        == map_of(before).insert(k, v)[q] by {
                        let j = choose|j: int| 0 <= j < after.len() && (#[trigger] after[j]).0 == q;
                        assert(map_of(after)[after[j].0] == after[j].1);
                        if j != i {
                            assert(before[j] == after[j]);
                            assert(map_of(before)[before[j].0] == before[j].1);
                            assert(before[j].0 != before[i as int].0);
                        }
                    }
                    assert(map_of(after) =~= map_of(before).insert(k, v));
                }
            },
            None => {
                entries.push((key, value));
                proof {
                    let after = entries.deep_view();
                    assert(after =~= before.push((k, v)));
                    assert(after.drop_last() =~= before);
                    assert forall|a: int, b: int| 0 <= a < b < after.len() implies after[a].0
                        != after[b].0 by {
                        assert(after[a] == before[a]);
                        if b < before.len() {
                            assert(after[b] == before[b]);
                        }
                    }
                }
            },
        }
        self.entries = entries;
    }

    /// The map of `pairs`. Where a key occurs more than once, its last pair
    /// counts.
    pub fn from_pairs(pairs: &Vec<(String, String)>) -> (map: StringMap)
        ensures
            map@ == map_of(pairs.deep_view()),
    {
        let mut map = StringMap::new();
        let mut i: usize = 0;
        while i < pairs.len()
            invariant
                i <= pairs.len(),
                map@ == map_of(pairs.deep_view().take(i as int)),
            decreases pairs.len() - i,
        {
            proof {
                let all = pairs.deep_view();
                assert(all[i as int] == pairs@[i as int].deep_view());
                assert(all.take(i + 1).drop_last() == all.take(i as int));
                assert(all.take(i + 1).last() == all[i as int]);
            }
            map.insert(pairs[i].0.clone(), pairs[i].1.clone());
            i += 1;
        }
        assert(pairs.deep_view().take(i as int) == pairs.deep_view());
        map
    }

    /// The entries as pairs, each key once.
    pub fn pairs(&self) -> (pairs: &Vec<(String, String)>)
        ensures
            map_of(pairs.deep_view()) == self@,
            distinct_keys(pairs.deep_view()),
    {
        proof {
            use_type_invariant(self);
        }
        &self.entries
    }
}

/// Pairs with distinct keys stand for a map with as many entries.
proof fn lemma_len(pairs: Seq<(Seq<char>, Seq<char>)>)
    requires
        distinct_keys(pairs),
    ensures
        map_of(pairs).dom().finite(),
        map_of(pairs).len() == pairs.len(),
    decreases pairs.len(),
{
    if pairs.len() > 0 {
        let rest = pairs.drop_last();
        assert forall|i: int, j: int| 0 <= i < j < rest.len() implies rest[i].0 != rest[j].0 by {
            assert(rest[i] == pairs[i]);
            assert(rest[j] == pairs[j]);
        }
        lemma_len(rest);
        lemma_map_of(rest);
        assert(!map_of(rest).contains_key(pairs.last().0)) by {
            if map_of(rest).contains_key(pairs.last().0) {
                let i = choose|i: int| 0 <= i < rest.len() && (#[trigger] rest[i]).0 == pairs.last().0;
                assert(pairs[i].0 == pairs[pairs.len() - 1].0);
            }
        }
    }
}

} // verus!
