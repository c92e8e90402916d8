use vstd::prelude::*;
use crate::global::{MemoryStoreQuestion, QuestionModel};

verus! {

/// The stored records read as a mathematical map from platform question
/// identifier to knowledge, later records overriding earlier ones.
pub open spec fn records_map(s: Seq<MemoryStoreQuestion>) -> Map<Seq<char>, QuestionModel>
    decreases s.len(),
{
    if s.len() == 0 {
        Map::empty()
    } else {
        records_map(s.drop_last()).insert(s.last().useful_id@, s.last()@)
    }
}

/// Whether the stored records carry pairwise distinct identifiers.
pub open spec fn records_distinct(s: Seq<MemoryStoreQuestion>) -> bool {
    forall|i: int, j: int| 0 <= i < j < s.len() ==> s[i].useful_id@ != s[j].useful_id@
}

/// An identifier occurs in the record map exactly when some record carries
/// it.
proof fn lemma_records_map_key(s: Seq<MemoryStoreQuestion>, k: Seq<char>)
    ensures
        records_map(s).contains_key(k) <==> (exists|i: int|
            0 <= i < s.len() && s[i].useful_id@ == k),
    decreases s.len(),
{
    if s.len() > 0 {
        lemma_records_map_key(s.drop_last(), k);
        if s.last().useful_id@ == k {
            assert(s[s.len() - 1].useful_id@ == k);
        } else if records_map(s).contains_key(k) {
            let i = choose|i: int|
                0 <= i < s.drop_last().len() && s.drop_last()[i].useful_id@ == k;
            assert(s[i].useful_id@ == k);
        } else {
            assert forall|i: int| 0 <= i < s.len() implies s[i].useful_id@ != k by {
                if i < s.len() - 1 {
                    assert(s.drop_last()[i].useful_id@ == s[i].useful_id@);
                }
            }
        }
    }
}

/// Under pairwise distinct identifiers, a record's knowledge is what the
/// record map stores under the record's identifier.
proof fn lemma_records_map_value(s: Seq<MemoryStoreQuestion>, i: int)
    requires
        records_distinct(s),
        0 <= i < s.len(),
    ensures
        records_map(s).contains_key(s[i].useful_id@),
        records_map(s)[s[i].useful_id@] == s[i]@,
    decreases s.len(),
{
    lemma_records_map_key(s, s[i].useful_id@);
    if i == s.len() - 1 {
    } else {
        assert(records_distinct(s.drop_last()));
        assert(s.drop_last()[i] == s[i]);
        lemma_records_map_value(s.drop_last(), i);
        assert(s.last().useful_id@ != s[i].useful_id@);
    }
}

/// Removing the record at `i` removes exactly its identifier from the
/// record map, provided identifiers are pairwise distinct.
proof fn lemma_records_map_remove(s: Seq<MemoryStoreQuestion>, i: int)
    requires
        records_distinct(s),
        0 <= i < s.len(),
    ensures
        records_map(s.remove(i)) == records_map(s).remove(s[i].useful_id@),
    decreases s.len(),
{
    let k = s[i].useful_id@;
    if i == s.len() - 1 {
        assert(s.remove(i) =~= s.drop_last());
        lemma_records_map_key(s.drop_last(), k);
        assert forall|j: int|
            0 <= j < s.drop_last().len() implies s.drop_last()[j].useful_id@ != k by {
            assert(s[j] == s.drop_last()[j]);
        }
        assert(!records_map(s.drop_last()).contains_key(k));
        assert(records_map(s.drop_last()).insert(k, s.last()@).remove(k) =~= records_map(
            s.drop_last(),
        ));
    } else {
        let t = s.drop_last();
        assert(records_distinct(t));
        lemma_records_map_remove(t, i);
        assert(s.remove(i).drop_last() =~= t.remove(i));
        assert(s.remove(i).last() == s.last());
        assert(s.last().useful_id@ != k);
        assert(records_map(t).remove(k).insert(s.last().useful_id@, s.last()@) =~= records_map(
            t,
        ).insert(s.last().useful_id@, s.last()@).remove(k));
    }
}

/// The durable knowledge store: at most one record per platform question
/// identifier; saving a record removes any record under the same identifier
/// and then inserts the new one.
pub struct KnowledgeStore {
    pub records: Vec<MemoryStoreQuestion>,
}

/// The position of the record carrying `useful_id`, if any.
fn find_record(records: &Vec<MemoryStoreQuestion>, useful_id: &String) -> (r: Option<usize>)
    ensures
        (match r {
            Some(i) => i < records@.len() && records@[i as int].useful_id@ == useful_id@,
            None => forall|j: int| 0 <= j < records@.len() ==> records@[j].useful_id@
                != useful_id@,
        }),
{
    let mut i: usize = 0;
    while i < records.len()
        invariant
            i <= records@.len(),
            forall|j: int| 0 <= j < i ==> records@[j].useful_id@ != useful_id@,
        decreases records@.len() - i,
    {
        if records[i].useful_id == *useful_id {
            return Some(i);
        }
        i += 1;
    }
    None
}

impl KnowledgeStore {
    /// Whether the representation invariant holds: identifiers pairwise
    /// distinct, so that the store keeps at most one record per question.
    pub open spec fn wf(self) -> bool {
        records_distinct(self.records@)
    }

    /// The store read as a map from question identifier to knowledge.
    pub open spec fn contents(self) -> Map<Seq<char>, QuestionModel> {
        records_map(self.records@)
    }

    /// An empty store.
    pub fn new() -> (r: KnowledgeStore)
        ensures
            r.wf(),
            r.contents() == Map::<Seq<char>, QuestionModel>::empty(),
            r.records@.len() == 0,
    {
        KnowledgeStore { records: Vec::new() }
    }

    /// The record stored under `useful_id`, if any.
    pub fn find_one<'a>(&'a self, useful_id: &String) -> (r: Option<&'a MemoryStoreQuestion>)
        requires
            self.wf(),
        ensures
            (r is Some) <==> self.contents().contains_key(useful_id@),
            (match r {
                Some(record) => record@ == self.contents()[useful_id@] && record.useful_id@
                    == useful_id@,
                None => true,
            }),
    {
        proof {
            lemma_records_map_key(self.records@, useful_id@);
        }
        match find_record(&self.records, useful_id) {
            Some(i) => {
                proof {
                    lemma_records_map_value(self.records@, i as int);
                }
                Some(&self.records[i])
            },
            None => None,
        }
    }

    /// Upserts a record: any record stored under the same identifier is
    /// removed first, then the record is inserted, so exactly one record
    /// remains under that identifier.
    pub fn save(&mut self, record: MemoryStoreQuestion)
        requires
            old(self).wf(),
        ensures
            final(self).wf(),
            final(self).contents() == old(self).contents().insert(record.useful_id@, record@),
            final(self).records@.len() <= old(self).records@.len() + 1,
    {
        let ghost s0 = self.records@;
        match find_record(&self.records, &record.useful_id) {
            Some(i) => {
                self.records.remove(i);
                proof {
                    lemma_records_map_remove(s0, i as int);
                    assert(records_distinct(self.records@)) by {
                        assert forall|a: int, b: int|
                            0 <= a < b < self.records@.len() implies self.records@[a].useful_id@
                            != self.records@[b].useful_id@ by {
                            assert(self.records@[a] == if a < i {
                                s0[a]
                            } else {
                                s0[a + 1]
                            });
                            assert(self.records@[b] == if b < i {
                                s0[b]
                            } else {
                                s0[b + 1]
                            });
                        }
                    }
                    assert forall|j: int|
                        0 <= j < self.records@.len() implies self.records@[j].useful_id@
                        != record.useful_id@ by {
                        assert(self.records@[j] == if j < i {
                            s0[j]
                        } else {
                            s0[j + 1]
                        });
                    }
                }
            },
            None => {},
        }
        let ghost s1 = self.records@;
        self.records.push(record);
        proof {
            assert(self.records@.drop_last() =~= s1);
            lemma_records_map_key(s1, self.records@.last().useful_id@);
            assert(self.wf()) by {
                assert forall|a: int, b: int|
                    0 <= a < b < self.records@.len() implies self.records@[a].useful_id@
                    != self.records@[b].useful_id@ by {
                    if b < self.records@.len() - 1 {
                        assert(self.records@[a] == s1[a] && self.records@[b] == s1[b]);
                    } else {
                        assert(self.records@[a] == s1[a]);
                    }
                }
            }
            assert(self.contents() =~= old(self).contents().insert(
                self.records@.last().useful_id@,
                self.records@.last()@,
            ));
        }
    }

    /// How many records the store holds.
    pub fn record_count(&self) -> (r: usize)
        ensures
            r == self.records@.len(),
    {
        self.records.len()
    }
}

} // verus!
