//! The kinds of moderation action an audit entry can record, and the parsing
//! of user-supplied action-type names.

use vstd::prelude::*;

verus! {

/// The kind of moderation action recorded by an audit entry.
#[derive(Clone, Copy, Debug, PartialEq, Eq, Structural)]
pub enum ActionType {
    Warn,
    Kick,
    Ban,
    Unban,
}

/// One character of a case-insensitive comparison against an uppercase ASCII
/// letter: either the character itself, or its lowercase form (code point
/// shifted by 32).
pub open spec fn char_eq_upper_ci(a: char, b: char) -> bool {
    a == b || a as u32 == b as u32 + 32
}

/// `s` equals the keyword `kw` up to ASCII case, where `kw` is written in
/// uppercase ASCII letters.
pub open spec fn eq_upper_keyword_ci(s: Seq<char>, kw: Seq<char>) -> bool {
    s.len() == kw.len() && forall|i: int| 0 <= i < s.len() ==> #[trigger] char_eq_upper_ci(s[i], kw[i])
}

/// Compares `s` against an uppercase ASCII keyword, ignoring the case of `s`.
fn matches_keyword(s: &str, kw: &str) -> (r: bool)
    ensures
        r == eq_upper_keyword_ci(s@, kw@),
{
    let n = s.unicode_len();
    if n != kw.unicode_len() {
        return false;
    }
    let mut i: usize = 0;
    while i < n
        invariant
            i <= n,
            n == s@.len(),
            n == kw@.len(),
            forall|j: int| 0 <= j < i ==> #[trigger] char_eq_upper_ci(s@[j], kw@[j]),
        decreases n - i,
    {
        let a = s.get_char(i);
        let b = kw.get_char(i);
        let au = a as u32;
        let bu = b as u32;
        if !(a == b || (bu <= u32::MAX - 32 && au == bu + 32)) {
            proof {
                assert(!char_eq_upper_ci(s@[i as int], kw@[i as int]));
            }
            return false;
        }
        i += 1;
    }
    true
}

/// What `ActionType::from_name` returns: the action type whose uppercase
/// name matches `s` up to ASCII case, if any.
pub open spec fn spec_action_from_name(s: Seq<char>) -> Option<ActionType> {
    if eq_upper_keyword_ci(s, "WARN"@) {
        Some(ActionType::Warn)
    } else if eq_upper_keyword_ci(s, "KICK"@) {
        Some(ActionType::Kick)
    } else if eq_upper_keyword_ci(s, "BAN"@) {
        Some(ActionType::Ban)
    } else if eq_upper_keyword_ci(s, "UNBAN"@) {
        Some(ActionType::Unban)
    } else {
        None
    }
}

impl ActionType {
    /// The canonical uppercase name under which this action type is stored.
    pub open spec fn spec_name(self) -> Seq<char> {
        match self {
            ActionType::Warn => "WARN"@,
            ActionType::Kick => "KICK"@,
            ActionType::Ban => "BAN"@,
            ActionType::Unban => "UNBAN"@,
        }
    }

    /// The canonical uppercase name under which this action type is stored.
    pub fn name(&self) -> (r: &'static str)
        ensures
            r@ == self.spec_name(),
    {
        match self {
            ActionType::Warn => "WARN",
            ActionType::Kick => "KICK",
            ActionType::Ban => "BAN",
            ActionType::Unban => "UNBAN",
        }
    }

    /// Parses an action-type name, ignoring ASCII case.
    pub fn from_name(s: &str) -> (r: Option<ActionType>)
        ensures
            r == spec_action_from_name(s@),
    {
        if matches_keyword(s, "WARN") {
            Some(ActionType::Warn)
        } else if matches_keyword(s, "KICK") {
            Some(ActionType::Kick)
        } else if matches_keyword(s, "BAN") {
            Some(ActionType::Ban)
        } else if matches_keyword(s, "UNBAN") {
            Some(ActionType::Unban)
        } else {
            None
        }
    }
}

/// What `filter_from_name` returns: no type restriction for an empty string
/// or "ALL" in any case, a single type for a recognised name, and nothing
/// for an unknown name.
pub open spec fn spec_filter_from_name(s: Seq<char>) -> Option<Option<ActionType>> {
    if s.len() == 0 || eq_upper_keyword_ci(s, "ALL"@) {
        Some(None)
    } else {
        match spec_action_from_name(s) {
            Some(t) => Some(Some(t)),
            None => None,
        }
    }
}

/// Turns the user-supplied type argument of a history query into a filter:
/// an empty string or "ALL" (in any case) means no type restriction, an
/// action-type name restricts to that type, and anything else is rejected.
pub fn filter_from_name(s: &str) -> (r: Option<Option<ActionType>>)
    ensures
        r == spec_filter_from_name(s@),
{
    if s.unicode_len() == 0 || matches_keyword(s, "ALL") {
        Some(None)
    } else {
        match ActionType::from_name(s) {
            Some(t) => Some(Some(t)),
            None => None,
        }
    }
}

} // verus!
