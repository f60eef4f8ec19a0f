//! The open key/value section of a project's configuration.

use vstd::prelude::*;
use crate::text::same_text;

verus! {

/// The map that a list of pairs stands for: each pair binds its key, and a
/// later pair overrides an earlier one with the same key.
pub open spec fn pairs_map(pairs: Seq<(String, String)>) -> Map<Seq<char>, Seq<char>>
    decreases pairs.len(),
{
    if pairs.len() == 0 {
        Map::empty()
    } else {
        pairs_map(pairs.drop_last()).insert(pairs.last().0@, pairs.last().1@)
    }
}

/// No key occurs in two pairs.
pub open spec fn keys_distinct(pairs: Seq<(String, String)>) -> bool {
    forall|i: int, j: int| 0 <= i < j < pairs.len() ==> pairs[i].0@ != pairs[j].0@
}

/// One more pair binds its key on top of what the others bind.
pub proof fn lemma_pairs_push(pairs: Seq<(String, String)>, entry: (String, String))
    ensures
        pairs_map(pairs.push(entry)) == pairs_map(pairs).insert(entry.0@, entry.1@),
{
    assert(pairs.push(entry).drop_last() =~= pairs);
}

/// A key that no pair holds is not bound.
pub proof fn lemma_pairs_absent(pairs: Seq<(String, String)>, key: Seq<char>)
    requires
        forall|i: int| 0 <= i < pairs.len() ==> pairs[i].0@ != key,
    ensures
        !pairs_map(pairs).contains_key(key),
    decreases pairs.len(),
{
    if pairs.len() > 0 {
        lemma_pairs_absent(pairs.drop_last(), key);
    }
}

/// With distinct keys, the pair at `at` decides what its key is bound to.
pub proof fn lemma_pairs_lookup(pairs: Seq<(String, String)>, at: int)
    requires
        keys_distinct(pairs),
        0 <= at < pairs.len(),
    ensures
        pairs_map(pairs).contains_key(pairs[at].0@),
        pairs_map(pairs)[pairs[at].0@] == pairs[at].1@,
    decreases pairs.len(),
{
    if at < pairs.len() - 1 {
        lemma_pairs_lookup(pairs.drop_last(), at);
    }
}

/// With distinct keys, replacing the value of the pair at `at` rebinds its
/// key and nothing else.
pub proof fn lemma_pairs_update(pairs: Seq<(String, String)>, at: int, entry: (String, String))
    requires
        keys_distinct(pairs),
        0 <= at < pairs.len(),
        entry.0@ == pairs[at].0@,
    ensures
        keys_distinct(pairs.update(at, entry)),
        pairs_map(pairs.update(at, entry)) == pairs_map(pairs).insert(entry.0@, entry.1@),
    decreases pairs.len(),
{
    let next = pairs.update(at, entry);
    if at < pairs.len() - 1 {
        lemma_pairs_update(pairs.drop_last(), at, entry);
        assert(next.drop_last() =~= pairs.drop_last().update(at, entry));
        assert(pairs_map(next) =~= pairs_map(pairs).insert(entry.0@, entry.1@));
    } else {
        assert(next.drop_last() =~= pairs.drop_last());
        assert(pairs_map(next) =~= pairs_map(pairs).insert(entry.0@, entry.1@));
    }
}

/// The last pair that holds a key decides what the key is bound to.
pub proof fn lemma_pairs_last(pairs: Seq<(String, String)>, at: int)
    requires
        0 <= at < pairs.len(),
        forall|k: int| at < k < pairs.len() ==> pairs[k].0@ != pairs[at].0@,
    ensures
        pairs_map(pairs).contains_key(pairs[at].0@),
        pairs_map(pairs)[pairs[at].0@] == pairs[at].1@,
    decreases pairs.len(),
{
    if at < pairs.len() - 1 {
        lemma_pairs_last(pairs.drop_last(), at);
    }
}

/// The place of the pair that decides what `key` is bound to, if any holds it.
pub fn find_pair(pairs: &Vec<(String, String)>, key: &str) -> (at: Option<usize>)
    ensures
        at is Some <==> pairs_map(pairs@).contains_key(key@),
        at is Some ==> at->0 < pairs@.len() && pairs@[at->0 as int].1@ == pairs_map(pairs@)[key@],
{
    let mut i: usize = pairs.len();
    while i > 0
        invariant
            i <= pairs@.len(),
            forall|k: int| i <= k < pairs@.len() ==> pairs@[k].0@ != key@,
        decreases i,
    {
        i -= 1;
        if same_text(pairs[i].0.as_str(), key) {
            proof {
                lemma_pairs_last(pairs@, i as int);
            }
            return Some(i);
        }
    }
    proof {
        lemma_pairs_absent(pairs@, key@);
    }
    None
}

/// The values that a project has resolved so far, by name: the license
/// identifier, the year, and every placeholder answered before.
#[derive(Debug)]
pub struct ProjectData {
    entries: Vec<(String, String)>,
}

impl View for ProjectData {
    type V = Map<Seq<char>, Seq<char>>;

    closed spec fn view(&self) -> Map<Seq<char>, Seq<char>> {
        pairs_map(self.entries@)
    }
}

impl Clone for ProjectData {
    fn clone(&self) -> (copy: Self)
        ensures
            copy@ == self@,
    {
        ProjectData { entries: self.pairs() }
    }
}

impl ProjectData {
    #[verifier::type_invariant]
    spec fn well_formed(&self) -> bool {
        keys_distinct(self.entries@)
    }

    /// An empty section.
    pub fn new() -> (data: Self)
        ensures
            data@ == Map::<Seq<char>, Seq<char>>::empty(),
    {
        ProjectData { entries: Vec::new() }
    }

    fn position(&self, key: &str) -> (at: Option<usize>)
        ensures
            match at {
                Some(i) => i < self.entries@.len() && self.entries@[i as int].0@ == key@,
                None => forall|i: int| 0 <= i < self.entries@.len() ==> self.entries@[i].0@ != key@,
            },
    {
        let mut i: usize = 0;
        while i < self.entries.len()
            invariant
                i <= self.entries@.len(),
                forall|k: int| 0 <= k < i ==> self.entries@[k].0@ != key@,
            decreases self.entries.len() - i,
        {
            if same_text(self.entries[i].0.as_str(), key) {
                return Some(i);
            }
            i += 1;
        }
        None
    }

    /// Whether `key` is bound.
    pub fn contains_key(&self, key: &str) -> (found: bool)
        ensures
            found == self@.contains_key(key@),
    {
        self.get(key).is_some()
    }

    /// The value bound to `key`, if any.
    pub fn get(&self, key: &str) -> (value: Option<&String>)
        ensures
            value is Some <==> self@.contains_key(key@),
            value is Some ==> value->0@ == self@[key@],
    {
        proof {
            use_type_invariant(self);
        }
        match self.position(key) {
            Some(i) => {
                proof {
                    lemma_pairs_lookup(self.entries@, i as int);
                }
                Some(&self.entries[i].1)
            },
            None => {
                proof {
                    lemma_pairs_absent(self.entries@, key@);
                }
                None
            },
        }
    }

    /// Binds `key` to `value`, replacing what it was bound to before.
    pub fn insert(&mut self, key: String, value: String)
        ensures
            final(self)@ == old(self)@.insert(key@, value@),
    {
        proof {
            use_type_invariant(&*self);
        }
        let at = self.position(key.as_str());
        let mut held = ProjectData::new();
        core::mem::swap(self, &mut held);
        let mut entries = held.entries;
        match at {
            Some(i) => {
                proof {
                    lemma_pairs_update(entries@, i as int, (key, value));
                }
                entries.set(i, (key, value));
            },
            None => {
                let ghost before = entries@;
                entries.push((key, value));
                proof {
                    assert(entries@.drop_last() =~= before);
                    assert forall|i: int, j: int| 0 <= i < j < entries@.len() implies entries@[i].0@
                        != entries@[j].0@ by {
                        if j < before.len() {
                            assert(before[i].0@ != before[j].0@);
                        }
                    }
                }
            },
        }
        *self = ProjectData { entries };
    }

    /// The section that a list of pairs stands for.
    pub fn from_pairs(pairs: &Vec<(String, String)>) -> (data: Self)
        ensures
            data@ == pairs_map(pairs@),
    {
        let mut data = ProjectData::new();
        let mut i: usize = 0;
        assert(pairs@.take(0) =~= Seq::<(String, String)>::empty());
        while i < pairs.len()
            invariant
                i <= pairs@.len(),
                data@ == pairs_map(pairs@.take(i as int)),
            decreases pairs.len() - i,
        {
            assert(pairs@.take(i + 1).drop_last() =~= pairs@.take(i as int));
            data.insert(pairs[i].0.clone(), pairs[i].1.clone());
            i += 1;
        }
        assert(pairs@.take(pairs@.len() as int) =~= pairs@);
        data
    }

    /// The bindings as a list of pairs, each key once.
    pub fn pairs(&self) -> (list: Vec<(String, String)>)
        ensures
            keys_distinct(list@),
            pairs_map(list@) == self@,
    {
        proof {
            use_type_invariant(self);
        }
        let mut list: Vec<(String, String)> = Vec::new();
        let mut i: usize = 0;
        while i < self.entries.len()
            invariant
                i <= self.entries@.len(),
                list@.len() == i,
                forall|k: int| 0 <= k < i ==> list@[k] == self.entries@[k],
            decreases self.entries.len() - i,
        {
            list.push((self.entries[i].0.clone(), self.entries[i].1.clone()));
            i += 1;
        }
        assert(list@ =~= self.entries@);
        list
    }
}

} // verus!
