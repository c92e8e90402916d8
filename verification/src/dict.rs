use vstd::prelude::*;

verus! {

/// One key/value pair of a string dictionary.
pub struct StrEntry {
    pub key: String,
    pub value: String,
}

/// The dictionary entries read as a mathematical map, later entries
/// overriding earlier ones.
pub open spec fn entries_map(s: Seq<StrEntry>) -> Map<Seq<char>, Seq<char>>
    decreases s.len(),
{
    if s.len() == 0 {
        Map::empty()
    } else {
        entries_map(s.drop_last()).insert(s.last().key@, s.last().value@)
    }
}

/// A key occurs in the entry map exactly when some entry carries it.
proof fn lemma_entries_map_key(s: Seq<StrEntry>, k: Seq<char>)
    ensures
        entries_map(s).contains_key(k) <==> (exists|i: int| 0 <= i < s.len() && s[i].key@ == k),
    decreases s.len(),
{
    if s.len() > 0 {
        lemma_entries_map_key(s.drop_last(), k);
        if s.last().key@ == k {
            assert(s[s.len() - 1].key@ == k);
        } else if entries_map(s).contains_key(k) {
            let i = choose|i: int| 0 <= i < s.drop_last().len() && s.drop_last()[i].key@ == k;
            assert(s[i].key@ == k);
        } else {
            assert forall|i: int| 0 <= i < s.len() implies s[i].key@ != k by {
                if i < s.len() - 1 {
                    assert(s.drop_last()[i].key@ == s[i].key@);
                }
            }
        }
    }
}

/// Under pairwise distinct keys, an entry's value is what the entry map
/// stores under the entry's key.
proof fn lemma_entries_map_value(s: Seq<StrEntry>, i: int)
    requires
        entries_distinct(s),
        0 <= i < s.len(),
    ensures
        entries_map(s).contains_key(s[i].key@),
        entries_map(s)[s[i].key@] == s[i].value@,
    decreases s.len(),
{
    lemma_entries_map_key(s, s[i].key@);
    if i == s.len() - 1 {
    } else {
        assert(entries_distinct(s.drop_last()));
        assert(s.drop_last()[i] == s[i]);
        lemma_entries_map_value(s.drop_last(), i);
        assert(s.last().key@ != s[i].key@);
    }
}

/// Removing the entry at `i` removes exactly its key from the entry map,
/// provided keys are pairwise distinct.
proof fn lemma_entries_map_remove(s: Seq<StrEntry>, i: int)
    requires
        entries_distinct(s),
        0 <= i < s.len(),
    ensures
        entries_map(s.remove(i)) == entries_map(s).remove(s[i].key@),
    decreases s.len(),
{
    let k = s[i].key@;
    if i == s.len() - 1 {
        assert(s.remove(i) =~= s.drop_last());
        lemma_entries_map_key(s.drop_last(), k);
        assert forall|j: int| 0 <= j < s.drop_last().len() implies s.drop_last()[j].key@ != k by {
            assert(s[j] == s.drop_last()[j]);
        }
        assert(!entries_map(s.drop_last()).contains_key(k));
        assert(entries_map(s.drop_last()).insert(k, s.last().value@).remove(k)
            =~= entries_map(s.drop_last()));
    } else {
        let t = s.drop_last();
        assert(entries_distinct(t));
        lemma_entries_map_remove(t, i);
        assert(s.remove(i).drop_last() =~= t.remove(i));
        assert(s.remove(i).last() == s.last());
        assert(s.last().key@ != k);
        assert(entries_map(t).remove(k).insert(s.last().key@, s.last().value@)
            =~= entries_map(t).insert(s.last().key@, s.last().value@).remove(k));
    }
}

/// Whether the keys of `s` are pairwise distinct.
pub open spec fn entries_distinct(s: Seq<StrEntry>) -> bool {
    forall|i: int, j: int| 0 <= i < j < s.len() ==> s[i].key@ != s[j].key@
}

/// A string-keyed dictionary backed by a vector of entries with pairwise
/// distinct keys; inserting an existing key overwrites its value.
pub struct StrDict {
    pub entries: Vec<StrEntry>,
}

/// The position of the entry carrying `key`, if any.
fn find_key(entries: &Vec<StrEntry>, key: &String) -> (r: Option<usize>)
    ensures
        (match r {
            Some(i) => i < entries@.len() && entries@[i as int].key@ == key@,
            None => forall|j: int| 0 <= j < entries@.len() ==> entries@[j].key@ != key@,
        }),
{
    let mut i: usize = 0;
    while i < entries.len()
        invariant
            i <= entries@.len(),
            forall|j: int| 0 <= j < i ==> entries@[j].key@ != key@,
        decreases entries@.len() - i,
    {
        if entries[i].key == *key {
            return Some(i);
        }
        i += 1;
    }
    None
}

impl StrDict {
    /// Whether the representation invariant holds: keys pairwise distinct.
    pub open spec fn wf(self) -> bool {
        entries_distinct(self.entries@)
    }

    /// The dictionary read as a mathematical map.
    pub open spec fn contents(self) -> Map<Seq<char>, Seq<char>> {
        entries_map(self.entries@)
    }

    /// An empty dictionary.
    pub fn new() -> (r: StrDict)
        ensures
            r.wf(),
            r.contents() == Map::<Seq<char>, Seq<char>>::empty(),
            r.entries@.len() == 0,
    {
        StrDict { entries: Vec::new() }
    }

    /// How many keys the dictionary holds.
    pub fn len(&self) -> (r: usize)
        requires
            self.wf(),
        ensures
            r == self.contents().dom().len(),
    {
        proof {
            lemma_entries_dom(self.entries@);
        }
        self.entries.len()
    }

    /// Binds `key` to `value`, overwriting any earlier binding of `key`.
    pub fn insert(&mut self, key: String, value: String)
        requires
            old(self).wf(),
        ensures
            final(self).wf(),
            final(self).contents() == old(self).contents().insert(key@, value@),
            !old(self).contents().contains_key(key@) ==> final(self).entries@.len() == old(self).entries@.len() + 1 && final(self).entries@.drop_last() == old(self).entries@
                && final(self).entries@.last().key@ == key@ && final(self).entries@.last().value@
                == value@,
    {
        proof {
            lemma_entries_map_key(self.entries@, key@);
        }
        let ghost s0 = self.entries@;
        match find_key(&self.entries, &key) {
            Some(i) => {
                self.entries.remove(i);
                proof {
                    lemma_entries_map_remove(s0, i as int);
                    assert(entries_distinct(self.entries@)) by {
                        assert forall|a: int, b: int|
                            0 <= a < b < self.entries@.len() implies self.entries@[a].key@
                            != self.entries@[b].key@ by {
                            assert(self.entries@[a] == if a < i { s0[a] } else { s0[a + 1] });
                            assert(self.entries@[b] == if b < i { s0[b] } else { s0[b + 1] });
                        }
                    }
                    assert forall|j: int|
                        0 <= j < self.entries@.len() implies self.entries@[j].key@ != key@ by {
                        assert(self.entries@[j] == if j < i { s0[j] } else { s0[j + 1] });
                    }
                }
            },
            None => {},
        }
        let ghost s1 = self.entries@;
        self.entries.push(StrEntry { key, value });
        proof {
            assert(self.entries@.drop_last() =~= s1);
            lemma_entries_map_key(s1, self.entries@.last().key@);
            assert(self.wf()) by {
                assert forall|a: int, b: int|
                    0 <= a < b < self.entries@.len() implies self.entries@[a].key@
                    != self.entries@[b].key@ by {
                    if b < self.entries@.len() - 1 {
                        assert(self.entries@[a] == s1[a] && self.entries@[b] == s1[b]);
                    } else {
                        assert(self.entries@[a] == s1[a]);
                    }
                }
            }
            assert(self.contents() =~= old(self).contents().insert(
                self.entries@.last().key@,
                self.entries@.last().value@,
            ));
        }
    }

    /// The value bound to `key`, if any.
    pub fn get<'a>(&'a self, key: &String) -> (r: Option<&'a String>)
        requires
            self.wf(),
        ensures
            (r is Some) <==> self.contents().contains_key(key@),
            (match r {
                Some(v) => v@ == self.contents()[key@],
                None => true,
            }),
    {
        proof {
            lemma_entries_map_key(self.entries@, key@);
        }
        match find_key(&self.entries, key) {
            Some(i) => {
                proof {
                    lemma_entries_map_value(self.entries@, i as int);
                }
                Some(&self.entries[i].value)
            },
            None => None,
        }
    }
}

/// Under pairwise distinct keys, the entry map's domain has one key per
/// entry.
proof fn lemma_entries_dom(s: Seq<StrEntry>)
    requires
        entries_distinct(s),
    ensures
        entries_map(s).dom().len() == s.len(),
        entries_map(s).dom().finite(),
    decreases s.len(),
{
    if s.len() == 0 {
        assert(entries_map(s).dom() =~= Set::<Seq<char>>::empty());
    } else {
        let t = s.drop_last();
        assert(entries_distinct(t));
        lemma_entries_dom(t);
        lemma_entries_map_key(t, s.last().key@);
        assert forall|j: int| 0 <= j < t.len() implies t[j].key@ != s.last().key@ by {
            assert(t[j] == s[j]);
        }
        assert(!entries_map(t).contains_key(s.last().key@));
        assert(entries_map(s).dom() =~= entries_map(t).dom().insert(s.last().key@));
        vstd::set::axiom_set_insert_len(entries_map(t).dom(), s.last().key@);
    }
}

} // verus!
