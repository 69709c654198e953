//! The document store adapter: an in-memory, collection-scoped store of
//! audit entries together with the per-guild serial counter records the
//! allocator relies on.
//!
//! The store stands for the remote document database the service persists
//! to. Every operation may fail, as a remote call may: a fault schedule,
//! set through [`DocumentStore::schedule_fault`], makes the chosen upcoming
//! operation fail with a chosen [`StoreError`]. The counter operation is the
//! store-side atomic read-modify-write of the allocator design: one
//! operation, observed by nothing in between.

use vstd::prelude::*;

use crate::entry::{models_of, AuditEntry, EntryModel};
use crate::error::{Ack, StoreError};
use crate::query::{
    filter_entries, first_index_with_serial, has_serial, lemma_filter_entries_len,
    lemma_filter_entries_push_match, lemma_filter_entries_push_mismatch,
    lemma_first_index_with_serial, matches_filter, QueryFilter,
};

verus! {

/// The counter a sequence of per-guild counter records assigns to a guild:
/// the value of the first record keyed by it, or 0 when there is none.
pub open spec fn counter_in(s: Seq<(String, u64)>, g: Seq<char>) -> u64
    decreases s.len(),
{
    if s.len() == 0 {
        0u64
    } else if s[0].0@ == g {
        s[0].1
    } else {
        counter_in(s.drop_first(), g)
    }
}

/// Records whose keys all differ from `g` do not decide `g`'s counter.
proof fn lemma_counter_in_skip(s: Seq<(String, u64)>, g: Seq<char>, i: int)
    requires
        0 <= i <= s.len(),
        forall|j: int| 0 <= j < i ==> (#[trigger] s[j]).0@ != g,
    ensures
        counter_in(s, g) == counter_in(s.skip(i), g),
    decreases i,
{
    if i == 0 {
        assert(s.skip(0) =~= s);
    } else {
        assert(s[0].0@ != g);
        assert(counter_in(s, g) == counter_in(s.drop_first(), g));
        assert forall|j: int| 0 <= j < i - 1 implies (#[trigger] s.drop_first()[j]).0@ != g by {
            assert(s.drop_first()[j] == s[j + 1]);
            assert(s[j + 1].0@ != g);
        }
        lemma_counter_in_skip(s.drop_first(), g, i - 1);
        assert(s.drop_first().skip(i - 1) =~= s.skip(i));
    }
}

/// Replacing a record's value leaves every other guild's counter unchanged.
proof fn lemma_counter_in_update_other(s: Seq<(String, u64)>, i: int, p: (String, u64), g: Seq<char>)
    requires
        0 <= i < s.len(),
        p.0@ == s[i].0@,
        g != p.0@,
    ensures
        counter_in(s.update(i, p), g) == counter_in(s, g),
    decreases s.len(),
{
    let s2 = s.update(i, p);
    if i == 0 {
        assert(s2[0] == p);
        assert(s2.drop_first() =~= s.drop_first());
    } else {
        assert(s2[0] == s[0]);
        if s[0].0@ != g {
            assert(s2.drop_first() =~= s.drop_first().update(i - 1, p));
            lemma_counter_in_update_other(s.drop_first(), i - 1, p, g);
        }
    }
}

/// Appending a record keyed by another guild leaves a counter unchanged.
proof fn lemma_counter_in_push_other(s: Seq<(String, u64)>, p: (String, u64), g: Seq<char>)
    requires
        p.0@ != g,
    ensures
        counter_in(s.push(p), g) == counter_in(s, g),
    decreases s.len(),
{
    if s.len() == 0 {
        assert(s.push(p)[0] == p);
        assert(s.push(p).drop_first() =~= Seq::<(String, u64)>::empty());
        assert(counter_in(s.push(p).drop_first(), g) == 0);
        assert(counter_in(s.push(p), g) == counter_in(s.push(p).drop_first(), g));
        assert(counter_in(s, g) == 0);
    } else {
        assert(s.push(p)[0] == s[0]);
        if s[0].0@ != g {
            assert(counter_in(s.push(p), g) == counter_in(s.push(p).drop_first(), g));
            assert(counter_in(s, g) == counter_in(s.drop_first(), g));
            assert(s.push(p).drop_first() =~= s.drop_first().push(p));
            lemma_counter_in_push_other(s.drop_first(), p, g);
        } else {
            assert(counter_in(s.push(p), g) == s[0].1);
            assert(counter_in(s, g) == s[0].1);
        }
    }
}

/// Mapping to models commutes with appending an entry.
pub proof fn lemma_models_of_push(s: Seq<AuditEntry>, e: AuditEntry)
    ensures
        models_of(s.push(e)) == models_of(s).push(e@),
{
    assert(models_of(s.push(e)) =~= models_of(s).push(e@));
}

/// Mapping to models commutes with removing an entry.
pub proof fn lemma_models_of_remove(s: Seq<AuditEntry>, i: int)
    requires
        0 <= i < s.len(),
    ensures
        models_of(s.remove(i)) == models_of(s).remove(i),
{
    s.remove_ensures(i);
    models_of(s).remove_ensures(i);
    assert forall|j: int| 0 <= j < s.remove(i).len() implies models_of(s.remove(i))[j]
        == models_of(s).remove(i)[j] by {
        if j < i {
            assert(s.remove(i)[j] == s[j]);
        } else {
            assert(s.remove(i)[j] == s[j + 1]);
        }
    }
    assert(models_of(s.remove(i)) =~= models_of(s).remove(i));
}

/// The fault schedule after one completed store operation: the distance to
/// the fault falls by one, and a fault at distance zero is consumed.
pub open spec fn ticked(f: Option<(u64, StoreError)>) -> Option<(u64, StoreError)> {
    match f {
        Some((k, e)) => if k == 0 {
            None
        } else {
            Some(((k - 1) as u64, e))
        },
        None => None,
    }
}

/// Does the fault schedule make the very next operation fail?
pub open spec fn fault_next(f: Option<(u64, StoreError)>) -> bool {
    match f {
        Some((k, _)) => k == 0,
        None => false,
    }
}

/// The error the next operation fails with, when one is due.
pub open spec fn fault_error(f: Option<(u64, StoreError)>) -> StoreError {
    match f {
        Some((_, e)) => e,
        None => StoreError::ConnectionLost,
    }
}

/// An in-memory document store scoped to one named collection: the audit
/// entries in insertion order, and one serial counter record per guild.
pub struct DocumentStore {
    collection_name: String,
    entries: Vec<AuditEntry>,
    counters: Vec<(String, u64)>,
    fault: Option<(u64, StoreError)>,
}

impl DocumentStore {
    /// The entries of the collection, in insertion order.
    pub closed spec fn entries_model(&self) -> Seq<EntryModel> {
        models_of(self.entries@)
    }

    /// The serial counter held for a guild: 0 before its first allocation.
    pub closed spec fn counter_of(&self, g: Seq<char>) -> u64 {
        counter_in(self.counters@, g)
    }

    /// The pending fault schedule.
    pub closed spec fn fault_model(&self) -> Option<(u64, StoreError)> {
        self.fault
    }

    /// The name of the collection this store is scoped to.
    pub closed spec fn spec_collection_name(&self) -> Seq<char> {
        self.collection_name@
    }

    /// Creates an empty store scoped to the named collection.
    pub fn new(collection_name: String) -> (r: DocumentStore)
        ensures
            r.entries_model() == Seq::<EntryModel>::empty(),
            forall|g: Seq<char>| r.counter_of(g) == 0,
            r.fault_model() == None::<(u64, StoreError)>,
            r.spec_collection_name() == collection_name@,
    {
        let r = DocumentStore { collection_name, entries: Vec::new(), counters: Vec::new(), fault: None };
        proof {
            assert(models_of(r.entries@) =~= Seq::<EntryModel>::empty());
        }
        r
    }

    /// The name of the collection this store is scoped to.
    pub fn collection_name(&self) -> (r: &String)
        ensures
            r@ == self.spec_collection_name(),
    {
        &self.collection_name
    }

    /// Schedules the operation `after` steps ahead (0 meaning the next one)
    /// to fail with `err`, replacing any earlier schedule.
    pub fn schedule_fault(&mut self, after: u64, err: StoreError)
        ensures
            final(self).fault_model() == Some((after, err)),
            final(self).entries_model() == old(self).entries_model(),
            forall|g: Seq<char>| final(self).counter_of(g) == old(self).counter_of(g),
            final(self).spec_collection_name() == old(self).spec_collection_name(),
    {
        self.fault = Some((after, err));
    }

    /// Advances the fault schedule by one operation and reports the error
    /// the current operation must fail with, if one is due.
    fn step_fault(&mut self) -> (r: Option<StoreError>)
        ensures
            final(self).fault_model() == ticked(old(self).fault_model()),
            r == if fault_next(old(self).fault_model()) {
                Some(fault_error(old(self).fault_model()))
            } else {
                None::<StoreError>
            },
            final(self).entries@ == old(self).entries@,
            final(self).counters@ == old(self).counters@,
            final(self).spec_collection_name() == old(self).spec_collection_name(),
    {
        match self.fault {
            Some((k, e)) => {
                if k == 0 {
                    self.fault = None;
                    Some(e)
                } else {
                    self.fault = Some((k - 1, e));
                    None
                }
            },
            None => None,
        }
    }

    /// Appends a document to the collection.
    pub fn insert(&mut self, entry: AuditEntry) -> (r: Result<Ack, StoreError>)
        ensures
            final(self).fault_model() == ticked(old(self).fault_model()),
            forall|g: Seq<char>| final(self).counter_of(g) == old(self).counter_of(g),
            final(self).spec_collection_name() == old(self).spec_collection_name(),
            fault_next(old(self).fault_model()) ==> r == Err::<Ack, StoreError>(
                fault_error(old(self).fault_model()),
            ) && final(self).entries_model() == old(self).entries_model(),
            !fault_next(old(self).fault_model()) ==> r == Ok::<Ack, StoreError>(Ack {})
                && final(self).entries_model() == old(self).entries_model().push(entry@),
    {
        if let Some(e) = self.step_fault() {
            return Err(e);
        }
        let ghost mid = self.entries@;
        self.entries.push(entry);
        proof {
            lemma_models_of_push(mid, entry);
        }
        Ok(Ack {})
    }

    /// Returns the entries matching a filter, in insertion order.
    pub fn find(&mut self, filter: &QueryFilter) -> (r: Result<Vec<AuditEntry>, StoreError>)
        ensures
            final(self).fault_model() == ticked(old(self).fault_model()),
            final(self).entries_model() == old(self).entries_model(),
            forall|g: Seq<char>| final(self).counter_of(g) == old(self).counter_of(g),
            final(self).spec_collection_name() == old(self).spec_collection_name(),
            fault_next(old(self).fault_model()) ==> r == Err::<Vec<AuditEntry>, StoreError>(
                fault_error(old(self).fault_model()),
            ),
            !fault_next(old(self).fault_model()) ==> (r matches Ok(v) && models_of(v@)
                == filter_entries(old(self).entries_model(), filter@)),
    {
        if let Some(e) = self.step_fault() {
            return Err(e);
        }
        let ghost entries0 = self.entries@;
        let mut out: Vec<AuditEntry> = Vec::new();
        let n = self.entries.len();
        proof {
            assert(models_of(out@) =~= Seq::<EntryModel>::empty());
            assert(models_of(entries0).take(0) =~= Seq::<EntryModel>::empty());
        }
        let mut i: usize = 0;
        while i < n
            invariant
                i <= n,
                self.entries@ == entries0,
                n == entries0.len(),
                models_of(out@) == filter_entries(models_of(entries0).take(i as int), filter@),
            decreases n - i,
        {
            let ghost models = models_of(entries0);
            let ghost out0 = out@;
            let e = &self.entries[i];
            if matches_filter(e, filter) {
                out.push(e.clone());
                proof {
                    lemma_models_of_push(out0, out@.last());
                    lemma_filter_entries_push_match(models.take(i as int), models[i as int], filter@);
                }
            } else {
                proof {
                    lemma_filter_entries_push_mismatch(models.take(i as int), models[i as int], filter@);
                }
            }
            proof {
                assert(models.take(i + 1) =~= models.take(i as int).push(models[i as int]));
            }
            i += 1;
        }
        proof {
            assert(models_of(entries0).take(n as int) =~= models_of(entries0));
        }
        Ok(out)
    }

    /// Counts the entries matching a filter.
    pub fn count(&mut self, filter: &QueryFilter) -> (r: Result<u64, StoreError>)
        ensures
            final(self).fault_model() == ticked(old(self).fault_model()),
            final(self).entries_model() == old(self).entries_model(),
            forall|g: Seq<char>| final(self).counter_of(g) == old(self).counter_of(g),
            final(self).spec_collection_name() == old(self).spec_collection_name(),
            fault_next(old(self).fault_model()) ==> r == Err::<u64, StoreError>(
                fault_error(old(self).fault_model()),
            ),
            !fault_next(old(self).fault_model()) ==> r == Ok::<u64, StoreError>(
                filter_entries(old(self).entries_model(), filter@).len() as u64,
            ),
    {
        proof {
            lemma_filter_entries_len(self.entries_model(), filter@);
        }
        match self.find(filter) {
            Ok(v) => Ok(v.len() as u64),
            Err(e) => Err(e),
        }
    }

    /// Deletes the earliest entry addressed by `serial`, if any, and reports
    /// how many entries were deleted: one or zero, never more.
    pub fn delete_one(&mut self, serial: u64) -> (r: Result<u64, StoreError>)
        ensures
            final(self).fault_model() == ticked(old(self).fault_model()),
            forall|g: Seq<char>| final(self).counter_of(g) == old(self).counter_of(g),
            final(self).spec_collection_name() == old(self).spec_collection_name(),
            fault_next(old(self).fault_model()) ==> r == Err::<u64, StoreError>(
                fault_error(old(self).fault_model()),
            ) && final(self).entries_model() == old(self).entries_model(),
            !fault_next(old(self).fault_model()) && has_serial(old(self).entries_model(), serial)
                ==> r == Ok::<u64, StoreError>(1u64) && final(self).entries_model()
                == old(self).entries_model().remove(
                first_index_with_serial(old(self).entries_model(), serial),
            ),
            !fault_next(old(self).fault_model()) && !has_serial(old(self).entries_model(), serial)
                ==> r == Ok::<u64, StoreError>(0u64) && final(self).entries_model()
                == old(self).entries_model(),
    {
        if let Some(e) = self.step_fault() {
            return Err(e);
        }
        let ghost entries0 = self.entries@;
        let n = self.entries.len();
        let mut i: usize = 0;
        while i < n
            invariant
                i <= n,
                self.entries@ == entries0,
                entries0 == old(self).entries@,
                n == entries0.len(),
                !fault_next(old(self).fault_model()),
                self.fault_model() == ticked(old(self).fault_model()),
                self.counters@ == old(self).counters@,
                self.spec_collection_name() == old(self).spec_collection_name(),
                forall|j: int| 0 <= j < i ==> (#[trigger] models_of(entries0)[j]).serial != serial,
            decreases n - i,
        {
            let ghost models = models_of(entries0);
            if self.entries[i].serial == serial {
                self.entries.remove(i);
                proof {
                    assert(models[i as int].serial == serial);
                    assert(has_serial(models, serial));
                    lemma_first_index_with_serial(models, serial);
                    let fi = first_index_with_serial(models, serial);
                    assert(fi <= i) by {
                        if fi > i {
                            assert(models[i as int].serial != serial);
                        }
                    }
                    assert(fi == i);
                    lemma_models_of_remove(entries0, i as int);
                }
                return Ok(1);
            }
            proof {
                assert(models[i as int].serial != serial);
            }
            i += 1;
        }
        proof {
            let models = models_of(entries0);
            if has_serial(models, serial) {
                let w = choose|j: int| 0 <= j < models.len() && (#[trigger] models[j]).serial
                    == serial;
                assert(models_of(entries0)[w].serial != serial);
            }
        }
        Ok(0)
    }

    /// Reads the serial counter held for a guild without advancing it.
    pub fn counter_value(&self, guild_id: &String) -> (r: u64)
        ensures
            r == self.counter_of(guild_id@),
    {
        let ghost counters0 = self.counters@;
        let n = self.counters.len();
        let mut i: usize = 0;
        while i < n
            invariant
                i <= n,
                self.counters@ == counters0,
                n == counters0.len(),
                forall|j: int| 0 <= j < i ==> (#[trigger] counters0[j]).0@ != guild_id@,
            decreases n - i,
        {
            if self.counters[i].0.eq(guild_id) {
                proof {
                    lemma_counter_in_skip(counters0, guild_id@, i as int);
                    assert(counters0.skip(i as int)[0] == counters0[i as int]);
                    assert(counter_in(counters0.skip(i as int), guild_id@) == counters0[i as int].1);
                }
                return self.counters[i].1;
            }
            proof {
                assert(counters0[i as int].0@ != guild_id@);
            }
            i += 1;
        }
        proof {
            lemma_counter_in_skip(counters0, guild_id@, n as int);
            assert(counters0.skip(n as int) =~= Seq::<(String, u64)>::empty());
        }
        0
    }

    /// Atomically increments a guild's serial counter and returns the new
    /// value: the store-side fetch-and-increment the allocator relies on.
    /// A guild's counter record is created at 1 on its first allocation.
    pub fn fetch_and_increment(&mut self, guild_id: &String) -> (r: Result<u64, StoreError>)
        requires
            old(self).counter_of(guild_id@) < u64::MAX,
        ensures
            final(self).fault_model() == ticked(old(self).fault_model()),
            final(self).entries_model() == old(self).entries_model(),
            final(self).spec_collection_name() == old(self).spec_collection_name(),
            fault_next(old(self).fault_model()) ==> r == Err::<u64, StoreError>(
                fault_error(old(self).fault_model()),
            ) && forall|g: Seq<char>| final(self).counter_of(g) == old(self).counter_of(g),
            !fault_next(old(self).fault_model()) ==> r == Ok::<u64, StoreError>(
                (old(self).counter_of(guild_id@) + 1) as u64,
            ) && final(self).counter_of(guild_id@) == old(self).counter_of(guild_id@) + 1 && forall|
                g: Seq<char>,
            |
                g != guild_id@ ==> final(self).counter_of(g) == old(self).counter_of(g),
    {
        if let Some(e) = self.step_fault() {
            return Err(e);
        }
        let ghost counters0 = self.counters@;
        let n = self.counters.len();
        let mut i: usize = 0;
        while i < n
            invariant
                i <= n,
                self.counters@ == counters0,
                counters0 == old(self).counters@,
                n == counters0.len(),
                counter_in(counters0, guild_id@) < u64::MAX,
                !fault_next(old(self).fault_model()),
                self.fault_model() == ticked(old(self).fault_model()),
                self.entries@ == old(self).entries@,
                self.spec_collection_name() == old(self).spec_collection_name(),
                forall|j: int| 0 <= j < i ==> (#[trigger] counters0[j]).0@ != guild_id@,
            decreases n - i,
        {
            if self.counters[i].0.eq(guild_id) {
                proof {
                    lemma_counter_in_skip(counters0, guild_id@, i as int);
                    assert(counters0.skip(i as int)[0] == counters0[i as int]);
                    assert(counter_in(counters0.skip(i as int), guild_id@) == counters0[i as int].1);
                }
                let v = self.counters[i].1;
                proof {
                    assert(v == counter_in(counters0, guild_id@));
                }
                let key = self.counters[i].0.clone();
                self.counters[i] = (key, v + 1);
                proof {
                    assert(self.counters@ =~= counters0.update(i as int, self.counters@[i as int]));
                    let updated = self.counters@;
                    assert forall|j: int| 0 <= j < i implies (#[trigger] updated[j]).0@
                        != guild_id@ by {
                        assert(updated[j] == counters0[j]);
                    }
                    lemma_counter_in_skip(updated, guild_id@, i as int);
                    assert(updated.skip(i as int)[0] == updated[i as int]);
                    assert(counter_in(updated.skip(i as int), guild_id@) == v + 1);
                    assert forall|g: Seq<char>| g != guild_id@ implies counter_in(updated, g)
                        == counter_in(counters0, g) by {
                        lemma_counter_in_update_other(
                            counters0,
                            i as int,
                            updated[i as int],
                            g,
                        );
                    }
                }
                return Ok(v + 1);
            }
            proof {
                assert(counters0[i as int].0@ != guild_id@);
            }
            i += 1;
        }
        proof {
            lemma_counter_in_skip(counters0, guild_id@, n as int);
            assert(counters0.skip(n as int) =~= Seq::<(String, u64)>::empty());
        }
        let key = guild_id.clone();
        self.counters.push((key, 1));
        proof {
            let pushed = self.counters@;
            assert(pushed == counters0.push(pushed.last()));
            assert(pushed.last().0@ == guild_id@);
            assert forall|j: int| 0 <= j < n implies (#[trigger] pushed[j]).0@ != guild_id@ by {
                assert(pushed[j] == counters0[j]);
            }
            lemma_counter_in_skip(pushed, guild_id@, n as int);
            assert(pushed.skip(n as int) =~= seq![pushed.last()]);
            assert(counter_in(pushed.skip(n as int), guild_id@) == 1);
            assert forall|g: Seq<char>| g != guild_id@ implies counter_in(pushed, g)
                == counter_in(counters0, g) by {
                lemma_counter_in_push_other(counters0, pushed.last(), g);
            }
        }
        Ok(1)
    }
}

} // verus!
