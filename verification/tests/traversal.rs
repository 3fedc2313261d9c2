//! Tests for the story registry and per-user traversal sessions.

use mnemosyne::engine::parse_and_build;
use mnemosyne::errors::{EngineError, LookupError};
use mnemosyne::registry::StoryRegistry;
use mnemosyne::session::SessionRegistry;

fn fork_script() -> &'static str {
    "::START\nAt the start.\n>ROOM1|go|First room\n>ROOM2|go|Second room\n%%\n\
     ::ROOM1\nRoom one.\n%%\n\
     ::ROOM2\nRoom two.\n%%"
}

fn two_step_script() -> &'static str {
    "::START\nLobby.\n>HALL|north|The hall\n%%\n\
     ::HALL\nThe hall.\n>START|south|Back to the lobby\n%%"
}

#[test]
fn registry_lists_names_in_insertion_order() {
    let mut reg = StoryRegistry::new();
    reg.load("beta", parse_and_build(fork_script()).unwrap());
    reg.load("alpha", parse_and_build(two_step_script()).unwrap());
    assert_eq!(reg.list(), vec!["beta".to_string(), "alpha".to_string()]);
}

#[test]
fn registry_reload_replaces_without_new_entry() {
    let mut reg = StoryRegistry::new();
    reg.load("tale", parse_and_build(fork_script()).unwrap());
    reg.load("tale", parse_and_build(two_step_script()).unwrap());
    assert_eq!(reg.list(), vec!["tale".to_string()]);
}

#[test]
fn registry_last_load_wins() {
    let mut reg = StoryRegistry::new();
    let mut sessions = SessionRegistry::new();
    reg.load("tale", parse_and_build(fork_script()).unwrap());
    reg.load("tale", parse_and_build(two_step_script()).unwrap());
    reg.activate("tale").unwrap();
    let reply = sessions.start(7, &reg).unwrap();
    assert_eq!(reply, "Lobby.\n[north] The hall");
}

#[test]
fn activate_missing_returns_not_found() {
    let mut reg = StoryRegistry::new();
    assert_eq!(reg.activate("missing"), Err(LookupError::NotFound));
}

#[test]
fn active_is_none_before_activation() {
    let mut reg = StoryRegistry::new();
    reg.load("tale", parse_and_build(fork_script()).unwrap());
    assert!(reg.active().is_none());
    reg.activate("tale").unwrap();
    assert!(reg.active().is_some());
}

#[test]
fn start_without_active_story_fails() {
    let reg = StoryRegistry::new();
    let mut sessions = SessionRegistry::new();
    assert_eq!(sessions.start(1, &reg).err(), Some(EngineError::NoActiveStory));
}

#[test]
fn advance_without_start_fails() {
    let mut sessions = SessionRegistry::new();
    assert_eq!(
        sessions.advance(1, "north").err(),
        Some(EngineError::NotStarted)
    );
}

#[test]
fn start_presents_entry_node() {
    let mut reg = StoryRegistry::new();
    let mut sessions = SessionRegistry::new();
    reg.load("fork", parse_and_build(fork_script()).unwrap());
    reg.activate("fork").unwrap();
    let reply = sessions.start(1, &reg).unwrap();
    assert_eq!(reply, "At the start.\n[go] First room\n[go] Second room");
}

#[test]
fn advance_takes_last_matching_edge() {
    let mut reg = StoryRegistry::new();
    let mut sessions = SessionRegistry::new();
    reg.load("fork", parse_and_build(fork_script()).unwrap());
    reg.activate("fork").unwrap();
    sessions.start(1, &reg).unwrap();
    let reply = sessions.advance(1, "go").unwrap();
    assert_eq!(reply, "Room two.");
}

#[test]
fn advance_with_unknown_command_leaves_session_unchanged() {
    let mut reg = StoryRegistry::new();
    let mut sessions = SessionRegistry::new();
    reg.load("fork", parse_and_build(fork_script()).unwrap());
    reg.activate("fork").unwrap();
    sessions.start(1, &reg).unwrap();
    let before = sessions.position(1);
    assert_eq!(
        sessions.advance(1, "north").err(),
        Some(EngineError::InvalidChoice)
    );
    assert_eq!(sessions.position(1), before);
}

#[test]
fn advance_matches_exactly_without_trimming() {
    let mut reg = StoryRegistry::new();
    let mut sessions = SessionRegistry::new();
    reg.load("fork", parse_and_build(fork_script()).unwrap());
    reg.activate("fork").unwrap();
    sessions.start(1, &reg).unwrap();
    assert_eq!(
        sessions.advance(1, "GO").err(),
        Some(EngineError::InvalidChoice)
    );
    assert_eq!(
        sessions.advance(1, "go ").err(),
        Some(EngineError::InvalidChoice)
    );
}

#[test]
fn advance_at_dead_end_keeps_reporting_invalid_choice() {
    let mut reg = StoryRegistry::new();
    let mut sessions = SessionRegistry::new();
    reg.load("fork", parse_and_build(fork_script()).unwrap());
    reg.activate("fork").unwrap();
    sessions.start(1, &reg).unwrap();
    sessions.advance(1, "go").unwrap();
    assert_eq!(
        sessions.advance(1, "go").err(),
        Some(EngineError::InvalidChoice)
    );
}

#[test]
fn sessions_can_cycle_back() {
    let mut reg = StoryRegistry::new();
    let mut sessions = SessionRegistry::new();
    reg.load("steps", parse_and_build(two_step_script()).unwrap());
    reg.activate("steps").unwrap();
    sessions.start(1, &reg).unwrap();
    assert_eq!(sessions.advance(1, "north").unwrap(), "The hall.\n[south] Back to the lobby");
    assert_eq!(sessions.advance(1, "south").unwrap(), "Lobby.\n[north] The hall");
}

#[test]
fn two_users_are_isolated() {
    let mut reg = StoryRegistry::new();
    let mut sessions = SessionRegistry::new();
    reg.load("steps", parse_and_build(two_step_script()).unwrap());
    reg.activate("steps").unwrap();
    sessions.start(1, &reg).unwrap();
    sessions.start(2, &reg).unwrap();
    let u2_before = sessions.position(2);
    sessions.advance(1, "north").unwrap();
    assert_eq!(sessions.position(2), u2_before);
    assert_ne!(sessions.position(1), u2_before);
    let reply = sessions.advance(2, "north").unwrap();
    assert_eq!(reply, "The hall.\n[south] Back to the lobby");
}

#[test]
fn identical_commands_give_identical_replies() {
    let mut reg = StoryRegistry::new();
    reg.load("steps", parse_and_build(two_step_script()).unwrap());
    reg.activate("steps").unwrap();
    let mut first = SessionRegistry::new();
    let mut second = SessionRegistry::new();
    assert_eq!(first.start(9, &reg).unwrap(), second.start(9, &reg).unwrap());
    assert_eq!(
        first.advance(9, "north").unwrap(),
        second.advance(9, "north").unwrap()
    );
    assert_eq!(
        first.advance(9, "bogus").err(),
        second.advance(9, "bogus").err()
    );
}

#[test]
fn restart_returns_user_to_entry() {
    let mut reg = StoryRegistry::new();
    let mut sessions = SessionRegistry::new();
    reg.load("steps", parse_and_build(two_step_script()).unwrap());
    reg.activate("steps").unwrap();
    sessions.start(1, &reg).unwrap();
    sessions.advance(1, "north").unwrap();
    let reply = sessions.start(1, &reg).unwrap();
    assert_eq!(reply, "Lobby.\n[north] The hall");
}

#[test]
fn replacing_active_story_does_not_move_running_sessions() {
    let mut reg = StoryRegistry::new();
    let mut sessions = SessionRegistry::new();
    reg.load("tale", parse_and_build(two_step_script()).unwrap());
    reg.activate("tale").unwrap();
    sessions.start(1, &reg).unwrap();
    reg.load("tale", parse_and_build(fork_script()).unwrap());
    reg.activate("tale").unwrap();
    let reply = sessions.advance(1, "north").unwrap();
    assert_eq!(reply, "The hall.\n[south] Back to the lobby");
}
