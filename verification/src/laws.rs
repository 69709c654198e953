//! The laws the audit log obeys, stated over its model and proved once and
//! for all: serial uniqueness within a guild, guild isolation, ascending
//! query order, removal idempotence, and the absence of partial state after
//! a failed insert.

use vstd::prelude::*;

use crate::entry::EntryModel;
use crate::query::{
    entry_matches, filter_entries, first_index_with_serial, has_serial,
    lemma_filter_entries_push_mismatch, lemma_filter_entries_sound, lemma_first_index_with_serial,
    FilterModel,
};
use crate::service::AuditLog;

verus! {

/// Serial uniqueness: a well-formed log never holds two entries of one
/// guild under the same serial. Every `record` call commits its entry under
/// a freshly incremented counter value and keeps the log well-formed, so
/// any number of recorded entries carry pairwise distinct serials within
/// their guild.
pub proof fn lemma_serials_unique(log: AuditLog, i: int, j: int)
    requires
        log.wf(),
        0 <= i < log.entries().len(),
        0 <= j < log.entries().len(),
        i != j,
        log.entries()[i].guild_id == log.entries()[j].guild_id,
    ensures
        log.entries()[i].serial != log.entries()[j].serial,
{
    if i < j {
        assert(log.entries()[i].serial < log.entries()[j].serial);
    } else {
        assert(log.entries()[j].serial < log.entries()[i].serial);
    }
}

/// Guild isolation, query side: an entry recorded for one guild is
/// invisible to every query scoped to another guild. (The counter side —
/// recording for one guild leaves every other guild's counter untouched —
/// is part of `record`'s own contract.)
pub proof fn lemma_guild_isolation(s: Seq<EntryModel>, e: EntryModel, f: FilterModel)
    requires
        e.guild_id != f.guild_id,
    ensures
        filter_entries(s.push(e), f) == filter_entries(s, f),
{
    lemma_filter_entries_push_mismatch(s, e, f);
}

/// Filtering a sequence whose serials ascend per guild yields strictly
/// ascending serials: every selected entry carries the query's guild.
proof fn lemma_filter_entries_ascending(s: Seq<EntryModel>, f: FilterModel)
    requires
        forall|i: int, j: int|
            0 <= i < j < s.len() && (#[trigger] s[i]).guild_id == (#[trigger] s[j]).guild_id
                ==> s[i].serial < s[j].serial,
    ensures
        forall|k: int, l: int|
            0 <= k < l < filter_entries(s, f).len() ==> (#[trigger] filter_entries(s, f)[k]).serial
                < (#[trigger] filter_entries(s, f)[l]).serial,
    decreases s.len(),
{
    if s.len() > 0 {
        let d = s.drop_last();
        assert(forall|i: int| 0 <= i < d.len() ==> d[i] == s[i]);
        lemma_filter_entries_ascending(d, f);
        lemma_filter_entries_sound(d, f);
        let rest = filter_entries(d, f);
        let whole = filter_entries(s, f);
        if entry_matches(s.last(), f) {
            assert(whole == rest.push(s.last()));
            assert forall|k: int, l: int| 0 <= k < l < whole.len() implies (
            #[trigger] whole[k]).serial < (#[trigger] whole[l]).serial by {
                if l < rest.len() {
                    assert(whole[k] == rest[k]);
                    assert(whole[l] == rest[l]);
                } else {
                    assert(whole[l] == s.last());
                    assert(whole[k] == rest[k]);
                    let w = choose|i: int| 0 <= i < d.len() && d[i] == rest[k];
                    assert(entry_matches(rest[k], f));
                    assert(s[w].guild_id == f.guild_id);
                    assert(s.last().guild_id == f.guild_id);
                    assert(s[w].serial < s.last().serial);
                }
            }
        } else {
            assert(whole == rest);
        }
    }
}

/// Query order: a well-formed log answers every history query in insertion
/// order with strictly ascending serials.
pub proof fn lemma_query_order(log: AuditLog, f: FilterModel, k: int, l: int)
    requires
        log.wf(),
        0 <= k < l < filter_entries(log.entries(), f).len(),
    ensures
        filter_entries(log.entries(), f)[k].serial < filter_entries(log.entries(), f)[l].serial,
{
    lemma_filter_entries_ascending(log.entries(), f);
}

/// Removal idempotence: when exactly one entry carries a serial, removal
/// by that serial deletes precisely that entry, leaves every other entry in
/// place (earlier entries keep their position, later ones shift down by
/// one), and a second removal of the same serial finds nothing.
pub proof fn lemma_removal_idempotent(s: Seq<EntryModel>, serial: u64)
    requires
        has_serial(s, serial),
        forall|i: int, j: int|
            0 <= i < s.len() && 0 <= j < s.len() && (#[trigger] s[i]).serial == serial && (
            #[trigger] s[j]).serial == serial ==> i == j,
    ensures
        ({
            let fi = first_index_with_serial(s, serial);
            &&& 0 <= fi < s.len()
            &&& s[fi].serial == serial
            &&& !has_serial(s.remove(fi), serial)
            &&& forall|k: int| 0 <= k < fi ==> #[trigger] s.remove(fi)[k] == s[k]
            &&& forall|k: int| fi <= k < s.len() - 1 ==> #[trigger] s.remove(fi)[k] == s[k + 1]
        }),
{
    lemma_first_index_with_serial(s, serial);
    let fi = first_index_with_serial(s, serial);
    s.remove_ensures(fi);
    let t = s.remove(fi);
    if has_serial(t, serial) {
        let w = choose|i: int| 0 <= i < t.len() && (#[trigger] t[i]).serial == serial;
        if w < fi {
            assert(s[w].serial == serial);
            assert(w == fi);
            assert(false);
        } else {
            assert(s[w + 1].serial == serial);
            assert(w + 1 == fi);
            assert(false);
        }
    }
}

/// A serial is "burned" for a guild when the guild's counter has reached it
/// while no entry of the guild carries it — the state a `record` leaves
/// behind when the store rejects its insert.
pub open spec fn serial_burned(entries: Seq<EntryModel>, counter: u64, g: Seq<char>, s: u64) -> bool {
    &&& s <= counter
    &&& forall|i: int|
        0 <= i < entries.len() && (#[trigger] entries[i]).guild_id == g ==> entries[i].serial != s
}

/// No partial state, part one: a `record` whose insert the store rejected
/// leaves the entries unchanged — the consumed serial is burned.
pub proof fn lemma_failed_record_burns_serial(pre: AuditLog, post: AuditLog, g: Seq<char>)
    requires
        pre.wf(),
        post.entries() == pre.entries(),
        pre.serial_counter(g) < u64::MAX,
        post.serial_counter(g) == pre.serial_counter(g) + 1,
    ensures
        serial_burned(post.entries(), post.serial_counter(g), g, post.serial_counter(g)),
{
    assert forall|i: int|
        0 <= i < post.entries().len() && (#[trigger] post.entries()[i]).guild_id == g
            implies post.entries()[i].serial != post.serial_counter(g) by {
        assert(pre.entries()[i].serial <= pre.serial_counter(g));
    }
}

/// No partial state, part two: a burned serial stays burned across a later
/// successful `record` for the guild — the new entry takes the incremented
/// counter, strictly above the burned serial. A burned serial is therefore
/// never reassigned.
pub proof fn lemma_burned_serial_stays_burned(
    entries: Seq<EntryModel>,
    counter: u64,
    g: Seq<char>,
    s: u64,
    e: EntryModel,
)
    requires
        serial_burned(entries, counter, g, s),
        counter < u64::MAX,
        e.serial == counter + 1,
    ensures
        serial_burned(entries.push(e), (counter + 1) as u64, g, s),
{
    assert forall|i: int|
        0 <= i < entries.push(e).len() && (#[trigger] entries.push(e)[i]).guild_id == g
            implies entries.push(e)[i].serial != s by {
        if i < entries.len() {
            assert(entries.push(e)[i] == entries[i]);
        } else {
            assert(entries.push(e)[i] == e);
        }
    }
}

/// No partial state, part three: a burned serial is invisible to queries —
/// no history of the guild contains an entry carrying it.
pub proof fn lemma_burned_serial_invisible(
    entries: Seq<EntryModel>,
    counter: u64,
    g: Seq<char>,
    s: u64,
    f: FilterModel,
)
    requires
        serial_burned(entries, counter, g, s),
        f.guild_id == g,
    ensures
        forall|k: int|
            0 <= k < filter_entries(entries, f).len() ==> (#[trigger] filter_entries(
                entries,
                f,
            )[k]).serial != s,
{
    lemma_filter_entries_sound(entries, f);
    assert forall|k: int| 0 <= k < filter_entries(entries, f).len() implies (
    #[trigger] filter_entries(entries, f)[k]).serial != s by {
        let m = filter_entries(entries, f)[k];
        assert(entry_matches(m, f));
        let w = choose|i: int| 0 <= i < entries.len() && entries[i] == m;
        assert(entries[w].guild_id == g);
    }
}

} // verus!
