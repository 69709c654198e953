use crabby::platform::{help_awatar, help_ban, help_kick, help_unban, help_warn, Handler};

#[test]
fn handler_is_fresh_state() {
    let h = Handler::new();
    assert_eq!(h, Handler {});
}

#[test]
fn help_texts_match_the_commands() {
    assert_eq!(help_kick(), "Example usage:\nuwu kick @<mention> <reason>");
    assert_eq!(help_warn(), "Example usage:\nuwu warn @<mention> <reason>");
    assert_eq!(help_ban(), "Example usage:\nuwu ban @<mention> <reason>");
    assert_eq!(help_unban(), "Example usage:\nuwu unban <userid>");
    assert_eq!(help_awatar(), "Example usage:\nuwu awatar @<mention>");
}
