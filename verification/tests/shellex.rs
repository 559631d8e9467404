use shellex::digits::u64_to_string;
use shellex::parse::{parse_line, split_tokens};
use shellex::repl::{background_message, follow_up, is_background, plan_line, Action, Followup};
use shellex::text::{is_space_char, str_eq, trim_line};

#[test]
fn splits_single_spaces() {
    let toks = split_tokens("echo hello world");
    assert_eq!(toks, vec!["echo", "hello", "world"]);
}

#[test]
fn splits_runs_of_whitespace() {
    let toks = split_tokens("  ls \t -l\t\t/tmp  ");
    assert_eq!(toks, vec!["ls", "-l", "/tmp"]);
}

#[test]
fn splits_nothing_from_whitespace() {
    assert!(split_tokens("").is_empty());
    assert!(split_tokens("   \t \n").is_empty());
}

#[test]
fn parse_first_token_is_command() {
    let (command, args) = parse_line("sleep 5 &");
    assert_eq!(command, "sleep");
    assert_eq!(args, vec!["5", "&"]);
}

#[test]
fn parse_empty_line_gives_empty_command() {
    let (command, args) = parse_line("");
    assert_eq!(command, "");
    assert!(args.is_empty());
    let (command, args) = parse_line(" \t ");
    assert_eq!(command, "");
    assert!(args.is_empty());
}

#[test]
fn parse_is_robust_to_untrimmed_input() {
    let (command, args) = parse_line("   cat   notes.txt ");
    assert_eq!(command, "cat");
    assert_eq!(args, vec!["notes.txt"]);
}

#[test]
fn metacharacters_are_plain_token_content() {
    let (command, args) = parse_line("grep a|b <in >out");
    assert_eq!(command, "grep");
    assert_eq!(args, vec!["a|b", "<in", ">out"]);
}

#[test]
fn trim_removes_surrounding_whitespace() {
    assert_eq!(trim_line("  quit \t"), "quit");
    assert_eq!(trim_line("a b"), "a b");
    assert_eq!(trim_line("   "), "");
    assert_eq!(trim_line(""), "");
}

#[test]
fn space_classification() {
    assert!(is_space_char(' '));
    assert!(is_space_char('\t'));
    assert!(is_space_char('\n'));
    assert!(is_space_char('\u{2003}'));
    assert!(!is_space_char('a'));
    assert!(!is_space_char('&'));
}

#[test]
fn str_eq_compares_contents() {
    assert!(str_eq("quit", "quit"));
    assert!(!str_eq("quit", "quit "));
    assert!(!str_eq("quit", "Quit"));
    assert!(!str_eq("", "a"));
    assert!(str_eq("", ""));
}

#[test]
fn quit_exactly_terminates() {
    assert!(matches!(plan_line("quit"), Action::Quit));
    assert!(matches!(plan_line("  quit \t"), Action::Quit));
}

#[test]
fn near_quit_lines_do_not_terminate() {
    match plan_line("Quit") {
        Action::Run { command, args, background } => {
            assert_eq!(command, "Quit");
            assert!(args.is_empty());
            assert!(!background);
        }
        _ => panic!("expected a run"),
    }
    match plan_line("quit now") {
        Action::Run { command, args, background } => {
            assert_eq!(command, "quit");
            assert_eq!(args, vec!["now".to_string()]);
            assert!(!background);
        }
        _ => panic!("expected a run"),
    }
    assert!(matches!(plan_line("quitx"), Action::Run { .. }));
}

#[test]
fn blank_lines_are_skipped() {
    assert!(matches!(plan_line(""), Action::Skip));
    assert!(matches!(plan_line("   "), Action::Skip));
    assert!(matches!(plan_line("\t\t\n"), Action::Skip));
}

#[test]
fn ampersand_anywhere_means_background() {
    match plan_line("sleep 5 &") {
        Action::Run { command, args, background } => {
            assert_eq!(command, "sleep");
            assert_eq!(args, vec!["5".to_string(), "&".to_string()]);
            assert!(background);
        }
        _ => panic!("expected a run"),
    }
    match plan_line("echo & hello") {
        Action::Run { background, .. } => assert!(background),
        _ => panic!("expected a run"),
    }
}

#[test]
fn no_ampersand_means_foreground() {
    match plan_line("echo hello") {
        Action::Run { command, args, background } => {
            assert_eq!(command, "echo");
            assert_eq!(args, vec!["hello".to_string()]);
            assert!(!background);
        }
        _ => panic!("expected a run"),
    }
}

#[test]
fn ampersand_as_command_is_not_background() {
    match plan_line("&") {
        Action::Run { command, args, background } => {
            assert_eq!(command, "&");
            assert!(args.is_empty());
            assert!(!background);
        }
        _ => panic!("expected a run"),
    }
}

#[test]
fn ampersand_must_stand_alone_as_a_token() {
    match plan_line("echo a&b") {
        Action::Run { background, .. } => assert!(!background),
        _ => panic!("expected a run"),
    }
}

#[test]
fn background_scan_over_arguments() {
    assert!(is_background(&vec!["5", "&"]));
    assert!(is_background(&vec!["&", "x"]));
    assert!(!is_background(&vec!["5", "&&"]));
    assert!(!is_background(&vec![]));
}

#[test]
fn decimal_rendering() {
    assert_eq!(u64_to_string(0), "0");
    assert_eq!(u64_to_string(7), "7");
    assert_eq!(u64_to_string(10), "10");
    assert_eq!(u64_to_string(40962), "40962");
    assert_eq!(u64_to_string(u64::MAX), "18446744073709551615");
}

#[test]
fn background_announcement_text() {
    assert_eq!(background_message(12345), "Started 12345 in background");
}

#[test]
fn follow_up_waits_in_foreground() {
    assert!(matches!(follow_up(false, 42), Followup::Wait));
}

#[test]
fn follow_up_announces_in_background() {
    match follow_up(true, 42) {
        Followup::Announce { message } => assert_eq!(message, "Started 42 in background"),
        _ => panic!("expected an announcement"),
    }
}
