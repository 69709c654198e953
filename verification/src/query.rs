//! Queries over the audit collection: the filter a history query carries,
//! which entries it selects, and how an entry is addressed by serial.

use vstd::prelude::*;

use crate::action::ActionType;
use crate::entry::{AuditEntry, EntryModel};

verus! {

/// A query over audit entries: always scoped to a guild and a subject user,
/// optionally restricted to one action type.
pub struct QueryFilter {
    pub guild_id: String,
    pub subject_user: String,
    pub action_type: Option<ActionType>,
}

/// The mathematical content of a query filter.
pub ghost struct FilterModel {
    pub guild_id: Seq<char>,
    pub subject_user: Seq<char>,
    pub action_type: Option<ActionType>,
}

impl View for QueryFilter {
    type V = FilterModel;

    open spec fn view(&self) -> FilterModel {
        FilterModel {
            guild_id: self.guild_id@,
            subject_user: self.subject_user@,
            action_type: self.action_type,
        }
    }
}

/// Does an entry satisfy a filter? Guild and subject always decide; the
/// action type only when the filter restricts it.
pub open spec fn entry_matches(e: EntryModel, f: FilterModel) -> bool {
    &&& e.guild_id == f.guild_id
    &&& e.subject_user == f.subject_user
    &&& match f.action_type {
        Some(t) => e.action_type == t,
        None => true,
    }
}

/// Does an entry satisfy a filter? (executable form)
pub fn matches_filter(e: &AuditEntry, f: &QueryFilter) -> (r: bool)
    ensures
        r == entry_matches(e@, f@),
{
    e.guild_id == f.guild_id && e.subject_user == f.subject_user && (match f.action_type {
        Some(t) => e.action_type == t,
        None => true,
    })
}

/// The subsequence, in order, of the entries satisfying a filter.
pub open spec fn filter_entries(s: Seq<EntryModel>, f: FilterModel) -> Seq<EntryModel>
    decreases s.len(),
{
    if s.len() == 0 {
        Seq::empty()
    } else {
        let rest = filter_entries(s.drop_last(), f);
        if entry_matches(s.last(), f) {
            rest.push(s.last())
        } else {
            rest
        }
    }
}

/// A filtered sequence is no longer than what it was drawn from.
pub proof fn lemma_filter_entries_len(s: Seq<EntryModel>, f: FilterModel)
    ensures
        filter_entries(s, f).len() <= s.len(),
    decreases s.len(),
{
    if s.len() > 0 {
        lemma_filter_entries_len(s.drop_last(), f);
    }
}

/// Every filtered entry satisfies the filter and occurs in the sequence it
/// was drawn from.
pub proof fn lemma_filter_entries_sound(s: Seq<EntryModel>, f: FilterModel)
    ensures
        forall|k: int| 0 <= k < filter_entries(s, f).len() ==> entry_matches(
            #[trigger] filter_entries(s, f)[k],
            f,
        ),
        forall|k: int| 0 <= k < filter_entries(s, f).len() ==> exists|i: int|
            0 <= i < s.len() && s[i] == #[trigger] filter_entries(s, f)[k],
    decreases s.len(),
{
    if s.len() > 0 {
        lemma_filter_entries_sound(s.drop_last(), f);
        let rest = filter_entries(s.drop_last(), f);
        assert forall|k: int| 0 <= k < filter_entries(s, f).len() implies exists|i: int|
            0 <= i < s.len() && s[i] == #[trigger] filter_entries(s, f)[k] by {
            if k < rest.len() {
                let i = choose|i: int|
                    0 <= i < s.drop_last().len() && s.drop_last()[i] == rest[k];
                assert(s[i] == filter_entries(s, f)[k]);
            } else {
                assert(s[s.len() - 1] == filter_entries(s, f)[k]);
            }
        }
    }
}

/// Filtering ignores an appended entry that does not match.
pub proof fn lemma_filter_entries_push_mismatch(s: Seq<EntryModel>, e: EntryModel, f: FilterModel)
    requires
        !entry_matches(e, f),
    ensures
        filter_entries(s.push(e), f) == filter_entries(s, f),
{
    assert(s.push(e).drop_last() =~= s);
    assert(s.push(e).last() == e);
}

/// Filtering keeps an appended entry that matches, at the end.
pub proof fn lemma_filter_entries_push_match(s: Seq<EntryModel>, e: EntryModel, f: FilterModel)
    requires
        entry_matches(e, f),
    ensures
        filter_entries(s.push(e), f) == filter_entries(s, f).push(e),
{
    assert(s.push(e).drop_last() =~= s);
    assert(s.push(e).last() == e);
}

/// Is some entry of `s` addressed by `serial`?
pub open spec fn has_serial(s: Seq<EntryModel>, serial: u64) -> bool {
    exists|i: int| 0 <= i < s.len() && (#[trigger] s[i]).serial == serial
}

/// The index of the first entry addressed by `serial`, or -1 when none is.
pub open spec fn first_index_with_serial(s: Seq<EntryModel>, serial: u64) -> int
    decreases s.len(),
{
    if s.len() == 0 {
        -1
    } else if s[0].serial == serial {
        0
    } else {
        let rest = first_index_with_serial(s.drop_first(), serial);
        if rest == -1 {
            -1
        } else {
            1 + rest
        }
    }
}

/// `first_index_with_serial` finds exactly the earliest match, and finds
/// one exactly when there is one.
pub proof fn lemma_first_index_with_serial(s: Seq<EntryModel>, serial: u64)
    ensures
        has_serial(s, serial) ==> {
            let i = first_index_with_serial(s, serial);
            &&& 0 <= i < s.len()
            &&& s[i].serial == serial
            &&& forall|j: int| 0 <= j < i ==> (#[trigger] s[j]).serial != serial
        },
        !has_serial(s, serial) ==> first_index_with_serial(s, serial) == -1,
    decreases s.len(),
{
    if s.len() == 0 {
    } else if s[0].serial == serial {
    } else {
        let rest = s.drop_first();
        lemma_first_index_with_serial(rest, serial);
        assert(forall|j: int| 0 <= j < rest.len() ==> rest[j] == s[j + 1]);
        if has_serial(s, serial) {
            let w = choose|i: int| 0 <= i < s.len() && (#[trigger] s[i]).serial == serial;
            assert(rest[w - 1].serial == serial);
            assert(has_serial(rest, serial));
            let fi = first_index_with_serial(rest, serial);
            assert(first_index_with_serial(s, serial) == 1 + fi);
            assert(s[1 + fi].serial == serial);
            assert forall|j: int| 0 <= j < 1 + fi implies (#[trigger] s[j]).serial != serial by {
                if j > 0 {
                    assert(s[j] == rest[j - 1]);
                }
            }
        } else {
            if has_serial(rest, serial) {
                let w = choose|i: int|
                    0 <= i < rest.len() && (#[trigger] rest[i]).serial == serial;
                assert(s[w + 1].serial == serial);
                assert(false);
            }
        }
    }
}

} // verus!
