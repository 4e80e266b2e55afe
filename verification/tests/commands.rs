//! The dispatcher's parse step and the example invocations: `add move squat
//! true true` stores the expected row, `del move squat` removes it, and an
//! invocation with no arguments parses to the handled `Invalid` case — the
//! graceful path, answered with the usage text, rather than an abnormal
//! termination.

use lift_cli::command::parse_command;
use lift_cli::command::Command;
use lift_cli::help::help_text;
use lift_cli::help::DB_FILE_NAME;
use lift_cli::help::PROGRAM_NAME;
use lift_cli::movement::Movement;
use lift_cli::movement::PLACEHOLDER_ID;
use lift_cli::store::MovementStore;

fn args(words: &[&str]) -> Vec<String> {
    words.iter().map(|w| w.to_string()).collect()
}

#[test]
fn add_move_squat_true_true_stores_the_expected_row() {
    let parsed = parse_command(&args(&["lift", "add", "move", "squat", "true", "true"]));
    match parsed {
        Command::AddMove { name, is_upper, require_weight } => {
            assert_eq!(name, "squat");
            assert!(is_upper);
            assert!(require_weight);
            let mut store = MovementStore::new();
            let m = Movement::with_placeholder_id(name, is_upper, require_weight);
            assert_eq!(store.insert(m), Ok(()));
            let rows = store.list();
            assert_eq!(rows.len(), 1);
            assert_eq!(rows[0].name, "squat");
            assert!(rows[0].is_upper);
            assert!(rows[0].require_weight);
            assert_eq!(rows[0].id, PLACEHOLDER_ID);
        }
        other => panic!("parsed to {:?}", other),
    }
}

#[test]
fn del_move_squat_removes_it_from_the_listing() {
    let mut store = MovementStore::new();
    let m = Movement::with_placeholder_id("squat".to_string(), true, true);
    assert_eq!(store.insert(m), Ok(()));
    let parsed = parse_command(&args(&["lift", "del", "move", "squat"]));
    match parsed {
        Command::DelMove { name } => {
            assert_eq!(name, "squat");
            assert_eq!(store.delete_by_name(&name), 1);
        }
        other => panic!("parsed to {:?}", other),
    }
    assert!(store.list().is_empty());
    assert!(!store.contains_name("squat"));
}

#[test]
fn boolean_arguments_are_coerced() {
    let parsed = parse_command(&args(&["lift", "add", "move", "curl", "YES", "nope"]));
    match parsed {
        Command::AddMove { name, is_upper, require_weight } => {
            assert_eq!(name, "curl");
            assert!(is_upper);
            assert!(!require_weight);
        }
        other => panic!("parsed to {:?}", other),
    }
}

#[test]
fn movements_and_help_parse() {
    assert!(matches!(parse_command(&args(&["lift", "movements"])), Command::Movements));
    assert!(matches!(parse_command(&args(&["lift", "help"])), Command::Help));
    assert!(matches!(parse_command(&args(&["lift", "help", "extra"])), Command::Help));
}

#[test]
fn zero_arguments_parse_to_the_handled_invalid_case() {
    assert!(matches!(parse_command(&args(&["lift"])), Command::Invalid));
    assert!(matches!(parse_command(&args(&[])), Command::Invalid));
}

#[test]
fn incomplete_and_unknown_invocations_are_invalid() {
    assert!(matches!(parse_command(&args(&["lift", "add"])), Command::Invalid));
    assert!(matches!(parse_command(&args(&["lift", "add", "move"])), Command::Invalid));
    assert!(matches!(parse_command(&args(&["lift", "add", "move", "squat", "true"])), Command::Invalid));
    assert!(matches!(parse_command(&args(&["lift", "add", "set", "squat", "true", "true"])), Command::Invalid));
    assert!(matches!(parse_command(&args(&["lift", "del", "move"])), Command::Invalid));
    assert!(matches!(parse_command(&args(&["lift", "del", "set", "squat"])), Command::Invalid));
    assert!(matches!(parse_command(&args(&["lift", "undo"])), Command::Invalid));
    assert!(matches!(parse_command(&args(&["lift", "movement"])), Command::Invalid));
}

#[test]
fn help_text_names_the_program_and_the_database_file() {
    let text = help_text();
    assert!(text.contains(PROGRAM_NAME));
    assert!(text.contains(DB_FILE_NAME));
    assert!(text.contains("add move <name>"));
    assert!(text.contains("lift movements"));
    assert!(text.contains("del move <name>"));
}
