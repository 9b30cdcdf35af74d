use whisperkey_core::command::{process_command, CommandError, CommandOutcome};
use whisperkey_core::config::CommandAction;

fn firefox_commands() -> Vec<(String, CommandAction)> {
    vec![(
        String::from("open browser"),
        CommandAction::Type(String::from("firefox {args}")),
    )]
}

#[test]
fn trigger_is_case_insensitive_and_captures_args() {
    let commands = firefox_commands();
    match process_command("Open Browser please", &commands) {
        Ok(Some(CommandOutcome::Typed(text))) => assert_eq!(text, "firefox please"),
        other => panic!("expected a Type match, got {:?}", other.is_ok()),
    }
}

#[test]
fn trigger_is_anchored_at_the_start() {
    let commands = firefox_commands();
    match process_command("please open browser", &commands) {
        Ok(None) => {},
        _ => panic!("a trigger in the middle of the text must not match"),
    }
}

#[test]
fn leading_whitespace_is_tolerated_and_args_trimmed() {
    let commands = firefox_commands();
    match process_command("  open browser   notes.txt  ", &commands) {
        Ok(Some(CommandOutcome::Typed(text))) => assert_eq!(text, "firefox notes.txt"),
        _ => panic!("expected a Type match"),
    }
}

#[test]
fn trigger_matches_as_a_prefix_without_word_boundary() {
    let commands = firefox_commands();
    match process_command("open browsers", &commands) {
        Ok(Some(CommandOutcome::Typed(text))) => assert_eq!(text, "firefox s"),
        _ => panic!("expected a Type match"),
    }
}

#[test]
fn exec_action_splits_program_and_args() {
    let commands = vec![(
        String::from("turn on lights"),
        CommandAction::Exec(String::from("lights-cli on")),
    )];
    match process_command("turn on lights", &commands) {
        Ok(Some(CommandOutcome::Launch { program, args })) => {
            assert_eq!(program, "lights-cli");
            assert_eq!(args, vec![String::from("on")]);
        },
        _ => panic!("expected a Launch match"),
    }
}

#[test]
fn exec_action_substitutes_args() {
    let commands = vec![(
        String::from("run"),
        CommandAction::Exec(String::from("sh -c {args}")),
    )];
    match process_command("run echo hello", &commands) {
        Ok(Some(CommandOutcome::Launch { program, args })) => {
            assert_eq!(program, "sh");
            assert_eq!(args, vec![String::from("-c"), String::from("echo"), String::from("hello")]);
        },
        _ => panic!("expected a Launch match"),
    }
}

#[test]
fn empty_exec_command_is_an_error() {
    let commands = vec![(String::from("run"), CommandAction::Exec(String::from("{args}")))];
    match process_command("run", &commands) {
        Err(CommandError::ExecutionError(m)) => assert_eq!(m, "Empty command"),
        _ => panic!("an Exec that substitutes to nothing must be an error"),
    }
}

#[test]
fn first_matching_trigger_wins() {
    let commands = vec![
        (String::from("open"), CommandAction::Type(String::from("first {args}"))),
        (String::from("open browser"), CommandAction::Type(String::from("second {args}"))),
    ];
    match process_command("open browser now", &commands) {
        Ok(Some(CommandOutcome::Typed(text))) => assert_eq!(text, "first browser now"),
        _ => panic!("expected a Type match"),
    }
}

#[test]
fn regex_metacharacters_in_triggers_match_literally() {
    let commands = vec![(
        String::from("what?"),
        CommandAction::Type(String::from("asked {args}")),
    )];
    match process_command("what? nothing", &commands) {
        Ok(Some(CommandOutcome::Typed(text))) => assert_eq!(text, "asked nothing"),
        _ => panic!("expected a Type match"),
    }
    // "what" alone must not match: the "?" is literal, not optional
    match process_command("what nothing", &commands) {
        Ok(None) => {},
        _ => panic!("the escaped trigger must not act as a regex"),
    }
}

#[test]
fn no_commands_means_no_match() {
    let commands: Vec<(String, CommandAction)> = vec![];
    assert!(matches!(process_command("hello world", &commands), Ok(None)));
}

#[test]
fn placeholder_is_replaced_at_every_occurrence() {
    let commands = vec![(
        String::from("say"),
        CommandAction::Type(String::from("{args} and {args}")),
    )];
    match process_command("say hi", &commands) {
        Ok(Some(CommandOutcome::Typed(text))) => assert_eq!(text, "hi and hi"),
        _ => panic!("expected a Type match"),
    }
}
