//! A map from column names to values, kept as a vector of entries in
//! insertion order.  Its view is the mathematical `Map` the contracts speak
//! of; the entry order is also exposed, because applying UPDATE assignments
//! walks the entries in order and the contracts pin that order down.

use crate::text::str_eq_str;
use vstd::prelude::*;

verus! {

/// A column-name-to-value map with unique keys, remembering insertion
/// order.
pub struct ValueMap {
    entries: Vec<(String, String)>,
}

/// The map described by an entry sequence, later entries overriding
/// earlier ones.
pub open spec fn map_of(entries: Seq<(Seq<char>, Seq<char>)>) -> Map<Seq<char>, Seq<char>>
    decreases entries.len(),
{
    if entries.len() == 0 {
        Map::empty()
    } else {
        map_of(entries.drop_last()).insert(entries.last().0, entries.last().1)
    }
}

pub proof fn lemma_map_of_contains(entries: Seq<(Seq<char>, Seq<char>)>, k: Seq<char>)
    ensures
        map_of(entries).contains_key(k) <==> exists|i: int|
            0 <= i < entries.len() && entries[i].0 == k,
    decreases entries.len(),
{
    if entries.len() > 0 {
        lemma_map_of_contains(entries.drop_last(), k);
        if entries.last().0 == k {
            assert(entries[entries.len() - 1].0 == k);
        } else if map_of(entries).contains_key(k) {
            let i = choose|i: int| 0 <= i < entries.drop_last().len() && entries.drop_last()[i].0
                == k;
            assert(entries[i].0 == k);
        } else {
            assert forall|i: int| 0 <= i < entries.len() implies entries[i].0 != k by {
                if i < entries.len() - 1 {
                    assert(entries.drop_last()[i] == entries[i]);
                }
            }
        }
    }
}

/// With unique keys, the map's value at a key is the value of the one
/// entry carrying it.
pub proof fn lemma_map_of_unique_at(entries: Seq<(Seq<char>, Seq<char>)>, i: int)
    requires
        forall|a: int, b: int| 0 <= a < b < entries.len() ==> entries[a].0 != entries[b].0,
        0 <= i < entries.len(),
    ensures
        map_of(entries).contains_key(entries[i].0),
        map_of(entries)[entries[i].0] == entries[i].1,
    decreases entries.len(),
{
    lemma_map_of_contains(entries, entries[i].0);
    if i < entries.len() - 1 {
        assert(entries.drop_last()[i] == entries[i]);
        lemma_map_of_unique_at(entries.drop_last(), i);
        assert(entries.last().0 != entries[i].0);
    }
}

/// What one insertion does to the entry sequence: an existing entry for
/// the key is overwritten in place, a new key is appended at the end.
pub open spec fn entries_insert(
    entries: Seq<(Seq<char>, Seq<char>)>,
    k: Seq<char>,
    v: Seq<char>,
) -> Seq<(Seq<char>, Seq<char>)> {
    if exists|i: int| 0 <= i < entries.len() && entries[i].0 == k {
        entries.update((choose|i: int| 0 <= i < entries.len() && entries[i].0 == k), (k, v))
    } else {
        entries.push((k, v))
    }
}

/// A whole sequence of insertions, first pair first.
pub open spec fn fold_entries(
    entries: Seq<(Seq<char>, Seq<char>)>,
    pairs: Seq<(Seq<char>, Seq<char>)>,
) -> Seq<(Seq<char>, Seq<char>)>
    decreases pairs.len(),
{
    if pairs.len() == 0 {
        entries
    } else {
        fold_entries(entries_insert(entries, pairs[0].0, pairs[0].1), pairs.drop_first())
    }
}

pub proof fn lemma_fold_entries_push(
    entries: Seq<(Seq<char>, Seq<char>)>,
    pairs: Seq<(Seq<char>, Seq<char>)>,
    p: (Seq<char>, Seq<char>),
)
    ensures
        fold_entries(entries, pairs.push(p)) == entries_insert(fold_entries(entries, pairs), p.0, p.1),
    decreases pairs.len(),
{
    if pairs.len() == 0 {
        reveal_with_fuel(fold_entries, 2);
        assert(pairs.push(p)[0] == p);
        assert(pairs.push(p).drop_first() =~= Seq::<(Seq<char>, Seq<char>)>::empty());
    } else {
        assert(pairs.push(p)[0] == pairs[0]);
        assert(pairs.push(p).drop_first() =~= pairs.drop_first().push(p));
        lemma_fold_entries_push(entries_insert(entries, pairs[0].0, pairs[0].1), pairs.drop_first(), p);
    }
}

impl View for ValueMap {
    type V = Map<Seq<char>, Seq<char>>;

    open spec fn view(&self) -> Map<Seq<char>, Seq<char>> {
        map_of(self.entry_seq())
    }
}

impl DeepView for ValueMap {
    type V = Map<Seq<char>, Seq<char>>;

    open spec fn deep_view(&self) -> Map<Seq<char>, Seq<char>> {
        self.view()
    }
}

impl ValueMap {
    /// The entry sequence, in insertion order, as plain character
    /// sequences.
    pub closed spec fn entry_seq(&self) -> Seq<(Seq<char>, Seq<char>)> {
        self.entries@.map_values(|e: (String, String)| (e.0@, e.1@))
    }

    /// Each key appears in at most one entry.
    pub open spec fn wf(&self) -> bool {
        forall|a: int, b: int|
            0 <= a < b < self.entry_seq().len() ==> self.entry_seq()[a].0
                != self.entry_seq()[b].0
    }

    /// How many entries the map holds.
    pub open spec fn spec_len(&self) -> nat {
        self.entry_seq().len()
    }

    pub fn new() -> (m: ValueMap)
        ensures
            m@ == Map::<Seq<char>, Seq<char>>::empty(),
            m.entry_seq() == Seq::<(Seq<char>, Seq<char>)>::empty(),
            m.wf(),
    {
        let m = ValueMap { entries: Vec::new() };
        proof {
            assert(m.entry_seq() =~= Seq::<(Seq<char>, Seq<char>)>::empty());
        }
        m
    }

    /// The index of the entry holding `key`, if any.
    fn find(&self, key: &str) -> (r: Option<usize>)
        ensures
            match r {
                Some(i) => i < self.entry_seq().len() && self.entry_seq()[i as int].0 == key@,
                None => forall|i: int|
                    0 <= i < self.entry_seq().len() ==> self.entry_seq()[i].0 != key@,
            },
    {
        let mut i: usize = 0;
        while i < self.entries.len()
            invariant
                i <= self.entries@.len(),
                self.entry_seq().len() == self.entries@.len(),
                forall|j: int| 0 <= j < i ==> self.entry_seq()[j].0 != key@,
                forall|j: int|
                    0 <= j < self.entries@.len() ==> self.entry_seq()[j] == (
                    self.entries@[j].0@,
                    self.entries@[j].1@,
                ),
            decreases self.entries@.len() - i,
        {
            if str_eq_str(self.entries[i].0.as_str(), key) {
                return Some(i);
            }
            i += 1;
        }
        None
    }

    /// Whether the map holds a value for `key`.
    pub fn contains_key(&self, key: &str) -> (r: bool)
        ensures
            r == self@.contains_key(key@),
    {
        proof {
            lemma_map_of_contains(self.entry_seq(), key@);
        }
        match self.find(key) {
            Some(_) => true,
            None => false,
        }
    }

    /// The value stored for `key`, if any.
    pub fn get(&self, key: &str) -> (r: Option<&String>)
        requires
            self.wf(),
        ensures
            match r {
                Some(v) => self@.contains_key(key@) && v@ == self@[key@],
                None => !self@.contains_key(key@),
            },
    {
        proof {
            lemma_map_of_contains(self.entry_seq(), key@);
        }
        match self.find(key) {
            Some(i) => {
                proof {
                    lemma_map_of_unique_at(self.entry_seq(), i as int);
                }
                Some(&self.entries[i].1)
            },
            None => None,
        }
    }

    /// Stores `value` under `key`: an existing entry is overwritten in
    /// place, a new key is appended at the end.
    pub fn insert(&mut self, key: String, value: String)
        requires
            old(self).wf(),
        ensures
            final(self).wf(),
            final(self)@ == old(self)@.insert(key@, value@),
            final(self).entry_seq() == entries_insert(old(self).entry_seq(), key@, value@),
    {
        match self.find(key.as_str()) {
            Some(i) => {
                proof {
                    let es0 = old(self).entry_seq();
                    let ghost witness: int = i as int;
                    assert(exists|j: int| 0 <= j < es0.len() && es0[j].0 == key@) by {
                        assert(0 <= witness < es0.len() && es0[witness].0 == key@);
                    }
                }
                self.entries.remove(i);
                self.entries.insert(i, (key, value));
                proof {
                    let es0 = old(self).entry_seq();
                    let es1 = self.entry_seq();
                    let j = choose|j: int| 0 <= j < es0.len() && es0[j].0 == key@;
                    assert(j == i as int);
                    assert(es1 =~= es0.update(i as int, (key@, value@)));
                    lemma_map_of_update(es0, i as int, key@, value@);
                }
            },
            None => {
                self.entries.push((key, value));
                proof {
                    let es0 = old(self).entry_seq();
                    let es1 = self.entry_seq();
                    assert(es1 =~= es0.push((key@, value@)));
                    assert(es1.drop_last() =~= es0);
                    assert(self@ =~= old(self)@.insert(key@, value@));
                }
            },
        }
    }

    /// How many entries the map holds.
    pub fn num_entries(&self) -> (n: usize)
        ensures
            n == self.spec_len(),
    {
        self.entries.len()
    }

    /// The entry at position `i`, in insertion order.
    pub fn entry_at(&self, i: usize) -> (r: (&String, &String))
        requires
            i < self.spec_len(),
        ensures
            (r.0@, r.1@) == self.entry_seq()[i as int],
    {
        let e = &self.entries[i];
        (&e.0, &e.1)
    }
}

/// Updating the one entry that holds a key changes the map at that key
/// alone.
pub proof fn lemma_map_of_update(
    entries: Seq<(Seq<char>, Seq<char>)>,
    i: int,
    k: Seq<char>,
    v: Seq<char>,
)
    requires
        forall|a: int, b: int| 0 <= a < b < entries.len() ==> entries[a].0 != entries[b].0,
        0 <= i < entries.len(),
        entries[i].0 == k,
    ensures
        map_of(entries.update(i, (k, v))) == map_of(entries).insert(k, v),
    decreases entries.len(),
{
    let updated = entries.update(i, (k, v));
    if i == entries.len() - 1 {
        assert(updated.drop_last() =~= entries.drop_last());
        assert(updated.last() == (k, v));
        assert(map_of(updated) =~= map_of(entries).insert(k, v));
    } else {
        assert(updated.drop_last() =~= entries.drop_last().update(i, (k, v)));
        lemma_map_of_update(entries.drop_last(), i, k, v);
        assert(updated.last() == entries.last());
        assert(entries.last().0 != k);
        assert(map_of(updated) =~= map_of(entries).insert(k, v));
    }
}

} // verus!
