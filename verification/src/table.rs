//! Tables keyed by text.

use crate::text::{lists, same, unique};
use vstd::prelude::*;

verus! {

/// A finite map from text to values. No key occurs twice.
#[derive(Debug)]
pub struct StringMap<V> {
    entries: Vec<(String, V)>,
}

spec fn distinct<V>(entries: Seq<(String, V)>) -> bool {
    forall|i: int, j: int|
        #![trigger entries[i], entries[j]]
        0 <= i < j < entries.len() ==> entries[i].0@ != entries[j].0@
}

spec fn keyed<V>(entries: Seq<(String, V)>, i: int, key: Seq<char>) -> bool {
    0 <= i < entries.len() && entries[i].0@ == key
}

spec fn table<V>(entries: Seq<(String, V)>) -> Map<Seq<char>, V> {
    Map::new(
        |key: Seq<char>| exists|i: int| keyed(entries, i, key),
        |key: Seq<char>| entries[choose|i: int| keyed(entries, i, key)].1,
    )
}

impl<V> View for StringMap<V> {
    type V = Map<Seq<char>, V>;

    closed spec fn view(&self) -> Map<Seq<char>, V> {
        table(self.entries@)
    }
}

proof fn lemma_lookup<V>(entries: Seq<(String, V)>, i: int)
    requires
        distinct(entries),
        0 <= i < entries.len(),
    ensures
        table(entries).contains_key(entries[i].0@),
        table(entries)[entries[i].0@] == entries[i].1,
{
    let key = entries[i].0@;
    assert(keyed(entries, i, key));
    let j = choose|j: int| keyed(entries, j, key);
    assert(keyed(entries, j, key));
    assert(j == i);
}

impl<V> StringMap<V> {
    #[verifier::type_invariant]
    spec fn well_formed(self) -> bool {
        distinct(self.entries@)
    }

    /// An empty table.
    pub fn new() -> (map: Self)
        ensures
            map@ == Map::<Seq<char>, V>::empty(),
    {
        let map = StringMap { entries: Vec::new() };
        proof {
            assert forall|key: Seq<char>| !map@.contains_key(key) by {
                assert forall|i: int| !keyed(map.entries@, i, key) by {}
            }
            assert(map@ =~= Map::<Seq<char>, V>::empty());
        }
        map
    }

    fn position(&self, key: &str) -> (at: Option<usize>)
        ensures
            match at {
                Some(i) => keyed(self.entries@, i as int, key@),
                None => forall|i: int| !keyed(self.entries@, i, key@),
            },
    {
        let mut i: usize = 0;
        while i < self.entries.len()
            invariant
                i <= self.entries.len(),
                forall|k: int| 0 <= k < i ==> !keyed(self.entries@, k, key@),
            decreases self.entries.len() - i,
        {
            if same(self.entries[i].0.as_str(), key) {
                return Some(i);
            }
            i += 1;
        }
        None
    }

    /// The value that stands under a key.
    pub fn get(&self, key: &str) -> (value: Option<&V>)
        ensures
            value is Some <==> self@.contains_key(key@),
            value is Some ==> *value->0 == self@[key@],
    {
        proof {
            use_type_invariant(self);
        }
        match self.position(key) {
            Some(i) => {
                proof {
                    lemma_lookup(self.entries@, i as int);
                }
                Some(&self.entries[i].1)
            },
            None => {
                assert(!self@.contains_key(key@));
                None
            },
        }
    }

    /// Whether a key has a value.
    pub fn contains_key(&self, key: &str) -> (r: bool)
        ensures
            r == self@.contains_key(key@),
    {
        self.get(key).is_some()
    }

    /// Puts a value under a key and returns the one that stood there.
    pub fn insert(&mut self, key: &str, value: V) -> (before: Option<V>)
        ensures
            final(self)@ == old(self)@.insert(key@, value),
            before is Some <==> old(self)@.contains_key(key@),
            before is Some ==> before->0 == old(self)@[key@],
    {
        let before = self.remove(key);
        let ghost map = self@;
        proof {
            use_type_invariant(&*self);
        }
        let mut entries: Vec<(String, V)> = Vec::new();
        std::mem::swap(&mut entries, &mut self.entries);
        let ghost rest = entries@;
        let name: String = key.to_owned();
        let ghost item = (name, value);
        entries.push((name, value));
        proof {
            assert(entries@ == rest.push(item));
            assert forall|i: int| 0 <= i < rest.len() implies rest[i].0@ != key@ by {
                if rest[i].0@ == key@ {
                    assert(keyed(rest, i, key@));
                    assert(map.contains_key(key@));
                }
            }
            assert(distinct(entries@));
            let now = table(entries@);
            assert forall|k: Seq<char>| now.contains_key(k) == map.insert(key@, value).contains_key(
                k,
            ) by {
                if now.contains_key(k) {
                    let i = choose|i: int| keyed(entries@, i, k);
                    assert(keyed(entries@, i, k));
                    if i < rest.len() {
                        assert(keyed(rest, i, k));
                    }
                }
                if k == key@ {
                    assert(keyed(entries@, rest.len() as int, k));
                } else if map.contains_key(k) {
                    let i = choose|i: int| keyed(rest, i, k);
                    assert(keyed(rest, i, k));
                    assert(keyed(entries@, i, k));
                }
            }
            assert forall|k: Seq<char>| now.contains_key(k) implies now[k] == map.insert(
                key@,
                value,
            )[k] by {
                let i = choose|i: int| keyed(entries@, i, k);
                assert(keyed(entries@, i, k));
                lemma_lookup(entries@, i);
                if i < rest.len() {
                    assert(rest[i] == entries@[i]);
                    lemma_lookup(rest, i);
                }
            }
            assert(now =~= map.insert(key@, value));
        }
        self.entries = entries;
        assert(map.insert(key@, value) =~= old(self)@.insert(key@, value));
        before
    }

    /// Takes a key out and returns the value that stood under it.
    pub fn remove(&mut self, key: &str) -> (before: Option<V>)
        ensures
            final(self)@ == old(self)@.remove(key@),
            before is Some <==> old(self)@.contains_key(key@),
            before is Some ==> before->0 == old(self)@[key@],
    {
        proof {
            use_type_invariant(&*self);
        }
        let ghost map = self@;
        let at = self.position(key);
        match at {
            None => {
                proof {
                    assert(!self@.contains_key(key@));
                    assert(self@ =~= map.remove(key@));
                }
                None
            },
            Some(at) => {
                let mut entries: Vec<(String, V)> = Vec::new();
                std::mem::swap(&mut entries, &mut self.entries);
                let ghost all = entries@;
                let (_, value) = entries.remove(at);
                proof {
                    let rest = entries@;
                    lemma_lookup(all, at as int);
                    assert forall|i: int| 0 <= i < rest.len() implies rest[i] == all[if i < at {
                        i
                    } else {
                        i + 1
                    }] by {}
                    assert(distinct(rest));
                    let now = table(rest);
                    assert forall|k: Seq<char>| now.contains_key(k) == map.remove(
                        key@,
                    ).contains_key(k) by {
                        if now.contains_key(k) {
                            let i = choose|i: int| keyed(rest, i, k);
                            assert(keyed(rest, i, k));
                            assert(keyed(all, if i < at { i } else { i + 1 }, k));
                        }
                        if k != key@ && map.contains_key(k) {
                            let i = choose|i: int| keyed(all, i, k);
                            assert(keyed(all, i, k));
                            assert(keyed(rest, if i < at { i } else { i - 1 }, k));
                        }
                    }
                    assert forall|k: Seq<char>| now.contains_key(k) implies now[k] == map.remove(
                        key@,
                    )[k] by {
                        let i = choose|i: int| keyed(rest, i, k);
                        assert(keyed(rest, i, k));
                        lemma_lookup(rest, i);
                        lemma_lookup(all, if i < at { i } else { i + 1 });
                    }
                    assert(now =~= map.remove(key@));
                }
                self.entries = entries;
                Some(value)
            },
        }
    }

    /// The keys, each once.
    pub fn keys(&self) -> (keys: Vec<String>)
        ensures
            forall|key: Seq<char>| lists(keys@, key) <==> self@.contains_key(key),
            unique(keys@),
    {
        proof {
            use_type_invariant(self);
        }
        let mut keys: Vec<String> = Vec::new();
        let mut i: usize = 0;
        while i < self.entries.len()
            invariant
                i == keys.len() <= self.entries.len(),
                forall|k: int| 0 <= k < i ==> #[trigger] keys@[k] == self.entries@[k].0,
            decreases self.entries.len() - i,
        {
            keys.push(self.entries[i].0.clone());
            i += 1;
        }
        proof {
            assert forall|key: Seq<char>| lists(keys@, key) <==> self@.contains_key(key) by {
                if lists(keys@, key) {
                    let i = choose|i: int| 0 <= i < keys@.len() && #[trigger] keys@[i]@ == key;
                    assert(keyed(self.entries@, i, key));
                }
                if self@.contains_key(key) {
                    let i = choose|i: int| keyed(self.entries@, i, key);
                    assert(keyed(self.entries@, i, key));
                    assert(keys@[i]@ == key);
                }
            }
            assert forall|i: int, j: int|
                #![trigger keys@[i], keys@[j]]
                0 <= i < j < keys.len() implies keys@[i]@ != keys@[j]@ by {
                assert(keys@[i] == self.entries@[i].0);
                assert(keys@[j] == self.entries@[j].0);
            }
        }
        keys
    }
}

/// What was put under a key is found there, every other key keeps what it had,
/// and a key that was taken out has nothing.
pub proof fn law_reads_see_writes<V>(
    map: &mut StringMap<V>,
    key: &str,
    value: V,
    replaced: Option<V>,
    other: &mut StringMap<V>,
    taken: Option<V>,
    wanted: &str,
    found: Option<&V>,
    left: Option<&V>,
)
    requires
        call_ensures(StringMap::<V>::insert, (map, key, value), replaced),
        call_ensures(StringMap::<V>::get, (&*final(map), wanted), found),
        call_ensures(StringMap::<V>::remove, (other, key), taken),
        call_ensures(StringMap::<V>::get, (&*final(other), wanted), left),
    ensures
        wanted@ == key@ ==> found is Some && *found->0 == value,
        wanted@ == key@ ==> left is None,
        wanted@ != key@ ==> (found is Some <==> old(map)@.contains_key(wanted@)),
        wanted@ != key@ && found is Some ==> *found->0 == old(map)@[wanted@],
        wanted@ != key@ ==> (left is Some <==> old(other)@.contains_key(wanted@)),
        wanted@ != key@ && left is Some ==> *left->0 == old(other)@[wanted@],
        replaced is Some <==> old(map)@.contains_key(key@),
        replaced is Some ==> replaced->0 == old(map)@[key@],
        taken is Some <==> old(other)@.contains_key(key@),
        taken is Some ==> taken->0 == old(other)@[key@],
{
}

} // verus!
