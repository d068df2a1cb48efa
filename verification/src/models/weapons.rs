//! How many times each weapon was launched next to one pilot.

use vstd::prelude::*;

verus! {

/// The map that a list of `(name, count)` entries stands for; a later entry
/// wins over an earlier one of the same name.
pub open spec fn entries_map(s: Seq<(String, i32)>) -> Map<Seq<char>, i32>
    decreases s.len(),
{
    if s.len() == 0 {
        Map::empty()
    } else {
        entries_map(s.drop_last()).insert(s.last().0@, s.last().1)
    }
}

/// No two entries carry the same name.
pub open spec fn distinct_names(s: Seq<(String, i32)>) -> bool {
    forall|i: int, j: int| 0 <= i < j < s.len() ==> #[trigger] s[i].0@ != #[trigger] s[j].0@
}

pub proof fn lemma_entries_map(s: Seq<(String, i32)>)
    requires
        distinct_names(s),
    ensures
        forall|k: Seq<char>| #[trigger]
            entries_map(s).contains_key(k) <==> exists|i: int| 0 <= i < s.len() && s[i].0@ == k,
        forall|i: int| 0 <= i < s.len() ==> #[trigger] entries_map(s)[s[i].0@] == s[i].1,
    decreases s.len(),
{
    if s.len() > 0 {
        let init = s.drop_last();
        assert(distinct_names(init)) by {
            assert forall|i: int, j: int| 0 <= i < j < init.len() implies #[trigger] init[i].0@
                != #[trigger] init[j].0@ by {
                assert(init[i] == s[i] && init[j] == s[j]);
            }
        }
        lemma_entries_map(init);
        assert forall|k: Seq<char>| #[trigger]
            entries_map(s).contains_key(k) implies exists|i: int| 0 <= i < s.len() && s[i].0@ == k by {
            if k != s.last().0@ {
                assert(entries_map(init).contains_key(k));
                let i = choose|i: int| 0 <= i < init.len() && init[i].0@ == k;
                assert(s[i] == init[i]);
            } else {
                assert(s[s.len() - 1].0@ == k);
            }
        }
        assert forall|k: Seq<char>|
            (exists|i: int| 0 <= i < s.len() && s[i].0@ == k) implies #[trigger] entries_map(
            s,
        ).contains_key(k) by {
            let i = choose|i: int| 0 <= i < s.len() && s[i].0@ == k;
            if i < s.len() - 1 {
                assert(s[i] == init[i]);
                assert(entries_map(init).contains_key(k));
            }
        }
        assert forall|i: int| 0 <= i < s.len() implies #[trigger] entries_map(s)[s[i].0@]
            == s[i].1 by {
            if i < s.len() - 1 {
                assert(s[i] == init[i]);
                assert(s[i].0@ != s[s.len() - 1].0@);
                assert(entries_map(init)[init[i].0@] == init[i].1);
            } else {
                assert(s[i] == s.last());
            }
        }
    }
}

/// Per-weapon launch counts: each name once, each count at least 1.
pub struct WeaponCounts {
    entries: Vec<(String, i32)>,
}

impl View for WeaponCounts {
    type V = Map<Seq<char>, i32>;

    closed spec fn view(&self) -> Map<Seq<char>, i32> {
        entries_map(self.entries@)
    }
}

impl WeaponCounts {
    #[verifier::type_invariant]
    closed spec fn well_formed(&self) -> bool {
        &&& distinct_names(self.entries@)
        &&& forall|i: int| 0 <= i < self.entries@.len() ==> #[trigger] self.entries@[i].1 >= 1
    }

    /// No weapon counted yet.
    pub fn new() -> (w: Self)
        ensures
            w@ == Map::<Seq<char>, i32>::empty(),
    {
        WeaponCounts { entries: Vec::new() }
    }

    fn find(&self, name: &String) -> (r: Option<usize>)
        ensures
            match r {
                Some(i) => i < self.entries@.len() && self.entries@[i as int].0@ == name@,
                None => forall|i: int|
                    0 <= i < self.entries@.len() ==> #[trigger] self.entries@[i].0@ != name@,
            },
    {
        let mut i: usize = 0;
        while i < self.entries.len()
            invariant
                i <= self.entries@.len(),
                forall|j: int| 0 <= j < i ==> #[trigger] self.entries@[j].0@ != name@,
            decreases self.entries@.len() - i,
        {
            if self.entries[i].0 == *name {
                return Some(i);
            }
            i = i + 1;
        }
        None
    }

    /// How many times `name` was counted, if at all.
    pub fn get(&self, name: &str) -> (r: Option<i32>)
        ensures
            match r {
                Some(c) => self@.contains_key(name@) && self@[name@] == c && c >= 1,
                None => !self@.contains_key(name@),
            },
    {
        proof {
            use_type_invariant(self);
            lemma_entries_map(self.entries@);
        }
        let key = name.to_owned();
        match self.find(&key) {
            Some(i) => Some(self.entries[i].1),
            None => None,
        }
    }

    /// Counts one more launch of `name`: 1 if it was not counted before.
    pub fn increment(&mut self, name: &str)
        requires
            old(self)@.contains_key(name@) ==> old(self)@[name@] < i32::MAX,
        ensures
            final(self)@ == old(self)@.insert(
                name@,
                if old(self)@.contains_key(name@) {
                    (old(self)@[name@] + 1) as i32
                } else {
                    1i32
                },
            ),
    {
        proof {
            use_type_invariant(&*self);
            lemma_entries_map(self.entries@);
        }
        let key = name.to_owned();
        let ghost old_entries = self.entries@;
        match self.find(&key) {
            Some(i) => {
                let count = self.entries[i].1;
                let mut entries: Vec<(String, i32)> = Vec::new();
                std::mem::swap(&mut entries, &mut self.entries);
                entries.set(i, (key, count + 1));
                proof {
                    let s = entries@;
                    assert(distinct_names(s)) by {
                        assert forall|a: int, b: int| 0 <= a < b < s.len() implies #[trigger] s[a].0@
                            != #[trigger] s[b].0@ by {
                            if a != i && b != i {
                                assert(s[a] == old_entries[a] && s[b] == old_entries[b]);
                            } else if a == i {
                                assert(s[b] == old_entries[b]);
                                assert(old_entries[a].0@ != old_entries[b].0@);
                            } else {
                                assert(s[a] == old_entries[a]);
                                assert(old_entries[a].0@ != old_entries[b].0@);
                            }
                        }
                    }
                    assert forall|k: int| 0 <= k < s.len() implies #[trigger] s[k].1 >= 1 by {
                        if k != i {
                            assert(s[k] == old_entries[k]);
                        }
                    }
                    lemma_entries_map(s);
                    assert(entries_map(s) =~= entries_map(old_entries).insert(name@, (count + 1) as i32)) by {
                        let target = entries_map(old_entries).insert(name@, (count + 1) as i32);
                        assert forall|k: Seq<char>| #[trigger] entries_map(s).contains_key(k) implies target.contains_key(k) by {
                            let j = choose|j: int| 0 <= j < s.len() && s[j].0@ == k;
                            if j != i {
                                assert(s[j] == old_entries[j]);
                                assert(entries_map(old_entries).contains_key(k));
                            }
                        }
                        assert forall|k: Seq<char>| #[trigger] target.contains_key(k) implies entries_map(s).contains_key(k) by {
                            if k != name@ {
                                assert(entries_map(old_entries).contains_key(k));
                                let j = choose|j: int| 0 <= j < old_entries.len() && old_entries[j].0@ == k;
                                assert(s[j] == old_entries[j]);
                                assert(s[j].0@ == k);
                            } else {
                                assert(s[i as int].0@ == k);
                            }
                        }
                        assert forall|k: Seq<char>| #[trigger] entries_map(s).contains_key(k) implies entries_map(s)[k]
                            == entries_map(old_entries).insert(name@, (count + 1) as i32)[k] by {
                            let j = choose|j: int| 0 <= j < s.len() && s[j].0@ == k;
                            if j != i {
                                assert(s[j] == old_entries[j]);
                            }
                        }
                    }
                }
                self.entries = entries;
            },
            None => {
                let mut entries: Vec<(String, i32)> = Vec::new();
                std::mem::swap(&mut entries, &mut self.entries);
                entries.push((key, 1));
                proof {
                    let s = entries@;
                    assert(s.drop_last() =~= old_entries);
                    assert(distinct_names(s)) by {
                        assert forall|a: int, b: int| 0 <= a < b < s.len() implies #[trigger] s[a].0@
                            != #[trigger] s[b].0@ by {
                            assert(s[a] == old_entries[a]);
                            if b < old_entries.len() {
                                assert(s[b] == old_entries[b]);
                            }
                        }
                    }
                    assert forall|k: int| 0 <= k < s.len() implies #[trigger] s[k].1 >= 1 by {
                        if k < old_entries.len() {
                            assert(s[k] == old_entries[k]);
                        }
                    }
                }
                self.entries = entries;
            },
        }
    }

    /// The counted weapons, each name once.
    pub fn entries(&self) -> (r: &Vec<(String, i32)>)
        ensures
            entries_map(r@) == self@,
            distinct_names(r@),
            forall|i: int| 0 <= i < r@.len() ==> #[trigger] r@[i].1 >= 1,
    {
        proof {
            use_type_invariant(self);
        }
        &self.entries
    }
}

} // verus!
