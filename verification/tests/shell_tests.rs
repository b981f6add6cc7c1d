use posixutils::export::{is_valid_name, Export};
use posixutils::sh::{parse_input, Input};

#[test]
fn empty_or_blank_lines_do_nothing() {
    assert_eq!(parse_input(""), Input::NoOp);
    assert_eq!(parse_input("   \t  "), Input::NoOp);
}

#[test]
fn exit_word_exits() {
    assert_eq!(parse_input("exit"), Input::Exit);
    assert_eq!(parse_input("  exit  "), Input::Exit);
}

#[test]
fn cd_takes_an_optional_directory() {
    assert_eq!(parse_input("cd"), Input::ChangeDir("".to_string()));
    assert_eq!(parse_input("cd /tmp"), Input::ChangeDir("/tmp".to_string()));
    assert_eq!(parse_input("cd /tmp extra"), Input::ChangeDir("/tmp".to_string()));
}

#[test]
fn other_words_are_commands_with_arguments() {
    assert_eq!(
        parse_input("ls -l dir"),
        Input::Exec("ls".to_string(), vec!["-l".to_string(), "dir".to_string()])
    );
    assert_eq!(parse_input("pwd"), Input::Exec("pwd".to_string(), vec![]));
}

#[test]
fn valid_names_start_with_a_letter_or_underscore() {
    assert!(is_valid_name("PATH"));
    assert!(is_valid_name("_x1"));
    assert!(!is_valid_name(""));
    assert!(!is_valid_name("2x"));
    assert!(!is_valid_name("a-b"));
}

#[test]
fn export_arguments_split_at_the_first_equals() {
    assert_eq!(
        Export::parse_arg("a=1"),
        Ok(("a".to_string(), Some("1".to_string())))
    );
    assert_eq!(
        Export::parse_arg("PATH=/bin:/usr/bin"),
        Ok(("PATH".to_string(), Some("/bin:/usr/bin".to_string())))
    );
    assert_eq!(Export::parse_arg("JUSTNAME"), Ok(("JUSTNAME".to_string(), None)));
    assert_eq!(Export::parse_arg("1bad=x"), Err(()));
    assert_eq!(Export::parse_arg("no-good"), Err(()));
}
