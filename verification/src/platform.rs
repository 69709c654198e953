//! The bot-facing odds and ends: the event-handler state, the key under
//! which the wiring stashes its store handle, and the usage texts of the
//! moderation commands.

use vstd::prelude::*;

verus! {

/// The bot's event-handler state. The platform wiring that reacts to
/// gateway events lives outside the library and holds one of these.
#[derive(Clone, Copy, Debug, PartialEq, Eq, Structural)]
pub struct Handler {}

impl Handler {
    /// A fresh handler.
    pub fn new() -> (r: Self)
        ensures
            r == (Handler {}),
    {
        Handler {}
    }
}

/// Marker key under which the platform wiring files its shared store
/// handle in the framework's type map.
#[derive(Clone, Copy, Debug, PartialEq, Eq, Structural)]
pub struct MongoClientKey {}

/// Usage text for the kick command.
pub fn help_kick() -> (r: String)
    ensures
        r@ == "Example usage:\nuwu kick @<mention> <reason>"@,
{
    String::from_str("Example usage:\nuwu kick @<mention> <reason>")
}

/// Usage text for the warn command.
pub fn help_warn() -> (r: String)
    ensures
        r@ == "Example usage:\nuwu warn @<mention> <reason>"@,
{
    String::from_str("Example usage:\nuwu warn @<mention> <reason>")
}

/// Usage text for the ban command.
pub fn help_ban() -> (r: String)
    ensures
        r@ == "Example usage:\nuwu ban @<mention> <reason>"@,
{
    String::from_str("Example usage:\nuwu ban @<mention> <reason>")
}

/// Usage text for the unban command.
pub fn help_unban() -> (r: String)
    ensures
        r@ == "Example usage:\nuwu unban <userid>"@,
{
    String::from_str("Example usage:\nuwu unban <userid>")
}

/// Usage text for the avatar command.
pub fn help_awatar() -> (r: String)
    ensures
        r@ == "Example usage:\nuwu awatar @<mention>"@,
{
    String::from_str("Example usage:\nuwu awatar @<mention>")
}

} // verus!
