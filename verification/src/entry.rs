//! The audit entry: one durable record of a moderation action.

use vstd::prelude::*;

use crate::action::ActionType;

verus! {

/// One durable record of a moderation action, as stored in the document
/// store's collection.
#[derive(Debug, PartialEq, Eq)]
pub struct AuditEntry {
    /// The guild the action was taken in; scope for serial uniqueness and
    /// for all history queries.
    pub guild_id: String,
    /// The guild-scoped, user-facing sequence number of this entry: a
    /// positive integer, unique within the guild.
    pub serial: u64,
    /// The kind of moderation action.
    pub action_type: ActionType,
    /// The acted-upon user's stable tag.
    pub subject_user: String,
    /// Free-text justification; may be empty.
    pub reason: String,
    /// The moderator who issued the action.
    pub responsible_moderator: String,
    /// When the entry was recorded, as an RFC 3339 timestamp.
    pub recorded_at: String,
}

/// The mathematical content of an audit entry.
pub ghost struct EntryModel {
    pub guild_id: Seq<char>,
    pub serial: u64,
    pub action_type: ActionType,
    pub subject_user: Seq<char>,
    pub reason: Seq<char>,
    pub responsible_moderator: Seq<char>,
    pub recorded_at: Seq<char>,
}

impl View for AuditEntry {
    type V = EntryModel;

    open spec fn view(&self) -> EntryModel {
        EntryModel {
            guild_id: self.guild_id@,
            serial: self.serial,
            action_type: self.action_type,
            subject_user: self.subject_user@,
            reason: self.reason@,
            responsible_moderator: self.responsible_moderator@,
            recorded_at: self.recorded_at@,
        }
    }
}

impl Clone for AuditEntry {
    /// Cloning preserves the entry's content.
    fn clone(&self) -> (r: Self)
        ensures
            r@ == self@,
    {
        AuditEntry {
            guild_id: self.guild_id.clone(),
            serial: self.serial,
            action_type: self.action_type,
            subject_user: self.subject_user.clone(),
            reason: self.reason.clone(),
            responsible_moderator: self.responsible_moderator.clone(),
            recorded_at: self.recorded_at.clone(),
        }
    }
}

/// The models of a sequence of entries.
pub open spec fn models_of(s: Seq<AuditEntry>) -> Seq<EntryModel> {
    s.map_values(|e: AuditEntry| e@)
}

} // verus!
