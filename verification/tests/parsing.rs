use crabby::action::{filter_from_name, ActionType};
use crabby::serial::parse_serial;

#[test]
fn parse_serial_accepts_canonical_decimals() {
    assert_eq!(parse_serial("1"), Some(1));
    assert_eq!(parse_serial("42"), Some(42));
    assert_eq!(parse_serial("1000000"), Some(1_000_000));
    assert_eq!(parse_serial("18446744073709551615"), Some(u64::MAX));
}

#[test]
fn parse_serial_rejects_everything_else() {
    assert_eq!(parse_serial(""), None);
    assert_eq!(parse_serial("0"), None);
    assert_eq!(parse_serial("01"), None);
    assert_eq!(parse_serial("007"), None);
    assert_eq!(parse_serial("-1"), None);
    assert_eq!(parse_serial("1.5"), None);
    assert_eq!(parse_serial("12a"), None);
    assert_eq!(parse_serial("abc"), None);
    assert_eq!(parse_serial(" 1"), None);
    assert_eq!(parse_serial("18446744073709551616"), None);
    assert_eq!(parse_serial("184467440737095516150"), None);
}

#[test]
fn action_names_round_trip() {
    for t in [ActionType::Warn, ActionType::Kick, ActionType::Ban, ActionType::Unban] {
        assert_eq!(ActionType::from_name(t.name()), Some(t));
    }
    assert_eq!(ActionType::Warn.name(), "WARN");
    assert_eq!(ActionType::Kick.name(), "KICK");
    assert_eq!(ActionType::Ban.name(), "BAN");
    assert_eq!(ActionType::Unban.name(), "UNBAN");
}

#[test]
fn action_parsing_ignores_ascii_case() {
    assert_eq!(ActionType::from_name("warn"), Some(ActionType::Warn));
    assert_eq!(ActionType::from_name("WaRn"), Some(ActionType::Warn));
    assert_eq!(ActionType::from_name("kick"), Some(ActionType::Kick));
    assert_eq!(ActionType::from_name("Ban"), Some(ActionType::Ban));
    assert_eq!(ActionType::from_name("unBAN"), Some(ActionType::Unban));
    assert_eq!(ActionType::from_name("warned"), None);
    assert_eq!(ActionType::from_name("wa rn"), None);
    assert_eq!(ActionType::from_name(""), None);
}

#[test]
fn filter_parsing_treats_all_and_empty_as_no_restriction() {
    assert_eq!(filter_from_name(""), Some(None));
    assert_eq!(filter_from_name("ALL"), Some(None));
    assert_eq!(filter_from_name("all"), Some(None));
    assert_eq!(filter_from_name("aLl"), Some(None));
    assert_eq!(filter_from_name("WARN"), Some(Some(ActionType::Warn)));
    assert_eq!(filter_from_name("ban"), Some(Some(ActionType::Ban)));
    assert_eq!(filter_from_name("nonsense"), None);
}
