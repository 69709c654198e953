//! The audit log service: records moderation actions under guild-scoped
//! serials, lists a user's offense history, and removes an entry by serial.

use vstd::prelude::*;

use crate::action::ActionType;
use crate::clock::current_timestamp_rfc3339;
use crate::entry::{models_of, AuditEntry, EntryModel};
use crate::error::{AuditError, RemovalOutcome, StoreError};
use crate::query::{
    filter_entries, first_index_with_serial, has_serial, lemma_first_index_with_serial,
    FilterModel, QueryFilter,
};
use crate::serial::{decimal_value, is_canonical_serial, parse_serial};
use crate::store::{fault_error, fault_next, ticked, DocumentStore};

verus! {

/// The audit log service over its document store. Each incoming command is
/// an independent unit of work: serial allocation is a single store-side
/// atomic operation, so concurrent `record` calls for one guild always
/// observe distinct counter values and never collide on a serial.
pub struct AuditLog {
    store: DocumentStore,
}

impl AuditLog {
    /// The recorded entries, in insertion order.
    pub closed spec fn entries(&self) -> Seq<EntryModel> {
        self.store.entries_model()
    }

    /// The serial counter the store holds for a guild.
    pub closed spec fn serial_counter(&self, g: Seq<char>) -> u64 {
        self.store.counter_of(g)
    }

    /// The store's pending fault schedule.
    pub closed spec fn fault_model(&self) -> Option<(u64, StoreError)> {
        self.store.fault_model()
    }

    /// Service invariant: every entry's serial is positive and no greater
    /// than its guild's counter, and within one guild serials strictly
    /// increase in insertion order — so they are guild-unique, and a query
    /// in insertion order lists them ascending.
    pub open spec fn wf(&self) -> bool {
        &&& forall|i: int|
            0 <= i < self.entries().len() ==> 1 <= (#[trigger] self.entries()[i]).serial
                && self.entries()[i].serial <= self.serial_counter(self.entries()[i].guild_id)
        &&& forall|i: int, j: int|
            0 <= i < j < self.entries().len() && (#[trigger] self.entries()[i]).guild_id == (
            #[trigger] self.entries()[j]).guild_id ==> self.entries()[i].serial
                < self.entries()[j].serial
    }

    /// A fresh audit log over an empty store scoped to the named collection.
    pub fn new(collection_name: String) -> (r: AuditLog)
        ensures
            r.wf(),
            r.entries() == Seq::<EntryModel>::empty(),
            forall|g: Seq<char>| r.serial_counter(g) == 0,
            r.fault_model() == None::<(u64, StoreError)>,
    {
        AuditLog { store: DocumentStore::new(collection_name) }
    }

    /// The serial counter currently held for a guild: the value the next
    /// allocation for that guild increments.
    pub fn current_counter(&self, guild_id: &String) -> (r: u64)
        ensures
            r == self.serial_counter(guild_id@),
    {
        self.store.counter_value(guild_id)
    }

    /// Makes the store operation `after` steps ahead (0 meaning the next
    /// one) fail with `err`: the handle through which a caller exercises
    /// the store's failure modes.
    pub fn schedule_store_fault(&mut self, after: u64, err: StoreError)
        ensures
            final(self).fault_model() == Some((after, err)),
            final(self).entries() == old(self).entries(),
            forall|g: Seq<char>| final(self).serial_counter(g) == old(self).serial_counter(g),
            old(self).wf() ==> final(self).wf(),
    {
        self.store.schedule_fault(after, err);
    }

    /// Records a moderation action: allocates the guild's next serial
    /// through the store's atomic counter, builds the entry carrying the
    /// given timestamp, and inserts it. A store failure is surfaced as
    /// `PersistenceFailed` and leaves no entry behind; a serial consumed by
    /// a failed insert stays consumed and is never reused.
    pub fn record(
        &mut self,
        guild_id: String,
        action_type: ActionType,
        subject_user: String,
        reason: String,
        responsible_moderator: String,
        recorded_at: String,
    ) -> (r: Result<AuditEntry, AuditError>)
        requires
            old(self).wf(),
            old(self).serial_counter(guild_id@) < u64::MAX,
        ensures
            final(self).wf(),
            fault_next(old(self).fault_model()) ==> {
                &&& r == Err::<AuditEntry, AuditError>(
                    AuditError::PersistenceFailed(fault_error(old(self).fault_model())),
                )
                &&& final(self).entries() == old(self).entries()
                &&& forall|g: Seq<char>|
                    final(self).serial_counter(g) == old(self).serial_counter(g)
                &&& final(self).fault_model() == ticked(old(self).fault_model())
            },
            !fault_next(old(self).fault_model()) && fault_next(ticked(old(self).fault_model()))
                ==> {
                &&& r == Err::<AuditEntry, AuditError>(
                    AuditError::PersistenceFailed(fault_error(ticked(old(self).fault_model()))),
                )
                &&& final(self).entries() == old(self).entries()
                &&& final(self).serial_counter(guild_id@) == old(self).serial_counter(guild_id@)
                    + 1
                &&& forall|g: Seq<char>|
                    g != guild_id@ ==> final(self).serial_counter(g) == old(self).serial_counter(g)
                &&& final(self).fault_model() == ticked(ticked(old(self).fault_model()))
            },
            !fault_next(old(self).fault_model()) && !fault_next(ticked(old(self).fault_model()))
                ==> {
                &&& (r matches Ok(e) && e@ == (EntryModel {
                    guild_id: guild_id@,
                    serial: (old(self).serial_counter(guild_id@) + 1) as u64,
                    action_type,
                    subject_user: subject_user@,
                    reason: reason@,
                    responsible_moderator: responsible_moderator@,
                    recorded_at: recorded_at@,
                }) && final(self).entries() == old(self).entries().push(e@))
                &&& final(self).serial_counter(guild_id@) == old(self).serial_counter(guild_id@)
                    + 1
                &&& forall|g: Seq<char>|
                    g != guild_id@ ==> final(self).serial_counter(g) == old(self).serial_counter(g)
                &&& final(self).fault_model() == ticked(ticked(old(self).fault_model()))
            },
    {
        let serial = match self.store.fetch_and_increment(&guild_id) {
            Ok(s) => s,
            Err(e) => {
                return Err(AuditError::PersistenceFailed(e));
            },
        };
        let entry = AuditEntry {
            guild_id,
            serial,
            action_type,
            subject_user,
            reason,
            responsible_moderator,
            recorded_at,
        };
        let result = entry.clone();
        let ghost mid = *self;
        match self.store.insert(entry) {
            Ok(_) => {
                proof {
                    let s0 = old(self).entries();
                    let s1 = final(self).entries();
                    let m = s1.last();
                    assert(s1 == s0.push(m));
                    assert(m.serial == old(self).serial_counter(guild_id@) + 1);
                    assert forall|i: int|
                        0 <= i < s1.len() implies 1 <= (#[trigger] s1[i]).serial && s1[i].serial
                        <= final(self).serial_counter(s1[i].guild_id) by {
                        if i < s0.len() {
                            assert(s1[i] == s0[i]);
                            assert(1 <= s0[i].serial);
                            assert(s0[i].serial <= old(self).serial_counter(s0[i].guild_id));
                            if s0[i].guild_id == guild_id@ {
                                assert(final(self).serial_counter(s0[i].guild_id)
                                    == old(self).serial_counter(guild_id@) + 1);
                            } else {
                                assert(final(self).serial_counter(s0[i].guild_id)
                                    == old(self).serial_counter(s0[i].guild_id));
                            }
                        } else {
                            assert(s1[i] == m);
                        }
                    }
                    assert forall|i: int, j: int|
                        0 <= i < j < s1.len() && (#[trigger] s1[i]).guild_id == (
                        #[trigger] s1[j]).guild_id implies s1[i].serial < s1[j].serial by {
                        if j < s0.len() {
                            assert(s1[i] == s0[i]);
                            assert(s1[j] == s0[j]);
                        } else {
                            assert(s1[j] == m);
                            assert(s1[i] == s0[i]);
                            if s0[i].guild_id == guild_id@ {
                                assert(s0[i].serial <= old(self).serial_counter(guild_id@));
                            }
                        }
                    }
                }
                Ok(result)
            },
            Err(e) => Err(AuditError::PersistenceFailed(e)),
        }
    }

    /// Records a moderation action stamped with the current wall-clock
    /// time. Behaves as `record`, with a timestamp the clock chose.
    pub fn record_now(
        &mut self,
        guild_id: String,
        action_type: ActionType,
        subject_user: String,
        reason: String,
        responsible_moderator: String,
    ) -> (r: Result<AuditEntry, AuditError>)
        requires
            old(self).wf(),
            old(self).serial_counter(guild_id@) < u64::MAX,
        ensures
            final(self).wf(),
            fault_next(old(self).fault_model()) ==> {
                &&& r == Err::<AuditEntry, AuditError>(
                    AuditError::PersistenceFailed(fault_error(old(self).fault_model())),
                )
                &&& final(self).entries() == old(self).entries()
                &&& forall|g: Seq<char>|
                    final(self).serial_counter(g) == old(self).serial_counter(g)
                &&& final(self).fault_model() == ticked(old(self).fault_model())
            },
            !fault_next(old(self).fault_model()) && fault_next(ticked(old(self).fault_model()))
                ==> {
                &&& r == Err::<AuditEntry, AuditError>(
                    AuditError::PersistenceFailed(fault_error(ticked(old(self).fault_model()))),
                )
                &&& final(self).entries() == old(self).entries()
                &&& final(self).serial_counter(guild_id@) == old(self).serial_counter(guild_id@)
                    + 1
                &&& forall|g: Seq<char>|
                    g != guild_id@ ==> final(self).serial_counter(g) == old(self).serial_counter(g)
                &&& final(self).fault_model() == ticked(ticked(old(self).fault_model()))
            },
            !fault_next(old(self).fault_model()) && !fault_next(ticked(old(self).fault_model()))
                ==> {
                &&& (r matches Ok(e) && e@.guild_id == guild_id@ && e@.serial == old(self).serial_counter(guild_id@) + 1 && e@.action_type == action_type
                    && e@.subject_user == subject_user@ && e@.reason == reason@
                    && e@.responsible_moderator == responsible_moderator@ && final(self).entries()
                    == old(self).entries().push(e@))
                &&& final(self).serial_counter(guild_id@) == old(self).serial_counter(guild_id@)
                    + 1
                &&& forall|g: Seq<char>|
                    g != guild_id@ ==> final(self).serial_counter(g) == old(self).serial_counter(g)
                &&& final(self).fault_model() == ticked(ticked(old(self).fault_model()))
            },
    {
        let recorded_at = current_timestamp_rfc3339();
        self.record(guild_id, action_type, subject_user, reason, responsible_moderator, recorded_at)
    }

    /// The recorded history of actions against a user in a guild, in
    /// insertion order (serial ascending); restricted to one action type
    /// when a filter is supplied. A clean user has an empty history, not an
    /// error.
    pub fn list_offenses(
        &mut self,
        guild_id: &String,
        subject_user: &String,
        action_type: Option<ActionType>,
    ) -> (r: Result<Vec<AuditEntry>, AuditError>)
        ensures
            final(self).entries() == old(self).entries(),
            forall|g: Seq<char>| final(self).serial_counter(g) == old(self).serial_counter(g),
            final(self).fault_model() == ticked(old(self).fault_model()),
            old(self).wf() ==> final(self).wf(),
            fault_next(old(self).fault_model()) ==> r == Err::<Vec<AuditEntry>, AuditError>(
                AuditError::PersistenceFailed(fault_error(old(self).fault_model())),
            ),
            !fault_next(old(self).fault_model()) ==> (r matches Ok(v) && models_of(v@)
                == filter_entries(
                old(self).entries(),
                (FilterModel { guild_id: guild_id@, subject_user: subject_user@, action_type }),
            )),
    {
        let filter = QueryFilter {
            guild_id: guild_id.clone(),
            subject_user: subject_user.clone(),
            action_type,
        };
        match self.store.find(&filter) {
            Ok(v) => Ok(v),
            Err(e) => Err(AuditError::PersistenceFailed(e)),
        }
    }

    /// Deletes at most one entry: the earliest recorded one whose serial
    /// equals `serial`. `Removed` reports that exactly one entry was
    /// deleted, `NotFound` that none carried the serial; more than one is
    /// never deleted.
    pub fn remove_by_serial(&mut self, serial: u64) -> (r: Result<RemovalOutcome, AuditError>)
        ensures
            forall|g: Seq<char>| final(self).serial_counter(g) == old(self).serial_counter(g),
            final(self).fault_model() == ticked(old(self).fault_model()),
            old(self).wf() ==> final(self).wf(),
            fault_next(old(self).fault_model()) ==> r == Err::<RemovalOutcome, AuditError>(
                AuditError::PersistenceFailed(fault_error(old(self).fault_model())),
            ) && final(self).entries() == old(self).entries(),
            !fault_next(old(self).fault_model()) && has_serial(old(self).entries(), serial) ==> r
                == Ok::<RemovalOutcome, AuditError>(RemovalOutcome::Removed) && final(self).entries() == old(self).entries().remove(
                first_index_with_serial(old(self).entries(), serial),
            ),
            !fault_next(old(self).fault_model()) && !has_serial(old(self).entries(), serial) ==> r
                == Ok::<RemovalOutcome, AuditError>(RemovalOutcome::NotFound) && final(self).entries() == old(self).entries(),
    {
        proof {
            if !fault_next(old(self).fault_model()) && has_serial(old(self).entries(), serial)
                && old(self).wf() {
                lemma_first_index_with_serial(old(self).entries(), serial);
                old(self).entries().remove_ensures(
                    first_index_with_serial(old(self).entries(), serial),
                );
            }
        }
        match self.store.delete_one(serial) {
            Ok(n) => {
                if n == 1 {
                    proof {
                        if old(self).wf() {
                            let s0 = old(self).entries();
                            let fi = first_index_with_serial(s0, serial);
                            let s1 = final(self).entries();
                            assert forall|i: int, j: int|
                                0 <= i < j < s1.len() && (#[trigger] s1[i]).guild_id == (
                                #[trigger] s1[j]).guild_id implies s1[i].serial < s1[j].serial by {
                                let i0: int = if i < fi { i } else { i + 1 };
                                let j0: int = if j < fi { j } else { j + 1 };
                                assert(s1[i] == s0[i0]);
                                assert(s1[j] == s0[j0]);
                            }
                            assert forall|i: int|
                                0 <= i < s1.len() implies 1 <= (#[trigger] s1[i]).serial
                                && s1[i].serial <= final(self).serial_counter(s1[i].guild_id) by {
                                let i0: int = if i < fi { i } else { i + 1 };
                                assert(s1[i] == s0[i0]);
                            }
                        }
                    }
                    Ok(RemovalOutcome::Removed)
                } else {
                    Ok(RemovalOutcome::NotFound)
                }
            },
            Err(e) => Err(AuditError::PersistenceFailed(e)),
        }
    }

    /// Removal addressed by the user-supplied serial string. Stored serials
    /// are canonical decimal strings, so a string that is not one can match
    /// no entry and is reported `NotFound` without consulting the store.
    pub fn remove_by_serial_str(&mut self, serial: &str) -> (r: Result<RemovalOutcome, AuditError>)
        ensures
            forall|g: Seq<char>| final(self).serial_counter(g) == old(self).serial_counter(g),
            old(self).wf() ==> final(self).wf(),
            ({
                let ok = is_canonical_serial(serial@) && decimal_value(serial@) <= u64::MAX;
                let n = decimal_value(serial@) as u64;
                let f = old(self).fault_model();
                let s = old(self).entries();
                &&& (ok && fault_next(f) ==> r == Err::<RemovalOutcome, AuditError>(
                    AuditError::PersistenceFailed(fault_error(f)),
                ) && final(self).entries() == s && final(self).fault_model() == ticked(f))
                &&& (ok && !fault_next(f) && has_serial(s, n) ==> r == Ok::<
                    RemovalOutcome,
                    AuditError,
                >(RemovalOutcome::Removed) && final(self).entries() == s.remove(
                    first_index_with_serial(s, n),
                ) && final(self).fault_model() == ticked(f))
                &&& (ok && !fault_next(f) && !has_serial(s, n) ==> r == Ok::<
                    RemovalOutcome,
                    AuditError,
                >(RemovalOutcome::NotFound) && final(self).entries() == s && final(self).fault_model() == ticked(f))
                &&& (!ok ==> r == Ok::<RemovalOutcome, AuditError>(RemovalOutcome::NotFound)
                    && final(self).entries() == s && final(self).fault_model() == f)
            }),
    {
        match parse_serial(serial) {
            Some(n) => self.remove_by_serial(n),
            None => Ok(RemovalOutcome::NotFound),
        }
    }
}

} // verus!
