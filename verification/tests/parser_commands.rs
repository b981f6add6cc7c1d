use posixutils::ast::{Assignment, SimpleCommand, Word, WordPart};
use posixutils::parser::Parser;

fn literal_word(contents: &str) -> Word {
    Word { parts: vec![WordPart::Literal(contents.to_string())] }
}

fn parse_simple_command(text: &str) -> SimpleCommand {
    let mut parser = Parser::new(text);
    parser.advance_shell();
    parser.parse_simple_command().unwrap()
}

#[test]
fn parse_simple_command_no_assignments_no_redirections_no_arguments() {
    let command = parse_simple_command("pwd");
    assert_eq!(command.command, Some(literal_word("pwd")));
    assert!(command.arguments.is_empty());
    assert!(command.assignments.is_empty());
    assert!(command.redirections.is_empty());
}

#[test]
fn parse_simple_command_single_assignment() {
    let command = parse_simple_command("a=1");
    assert!(command.command.is_none());
    assert_eq!(command.assignments.len(), 1);
    assert_eq!(command.assignments[0].name, "a".to_string());
    assert_eq!(command.assignments[0].value, literal_word("1"));
    assert!(command.redirections.is_empty());
    assert!(command.arguments.is_empty());
}

#[test]
fn parse_simple_command_multiple_assignment() {
    let command =
        parse_simple_command("PATH=/bin:/usr/bin:/usr/local/bin a=1 b=\"this is a test\"");
    assert!(command.command.is_none());
    assert_eq!(command.assignments.len(), 3);
    assert_eq!(command.assignments[0].name, "PATH".to_string());
    assert_eq!(
        command.assignments[0].value,
        literal_word("/bin:/usr/bin:/usr/local/bin")
    );
    assert_eq!(command.assignments[1].name, "a".to_string());
    assert_eq!(command.assignments[1].value, literal_word("1"));
    assert_eq!(command.assignments[2].name, "b".to_string());
    assert_eq!(
        command.assignments[2].value,
        literal_word("\"this is a test\"")
    );
    assert!(command.redirections.is_empty());
    assert!(command.arguments.is_empty());
}

#[test]
fn parse_simple_command_with_arguments() {
    let command = parse_simple_command("echo this is a test");
    assert!(command.assignments.is_empty());
    assert!(command.redirections.is_empty());
    assert_eq!(command.command, Some(literal_word("echo")));
    assert_eq!(
        command.arguments,
        vec![
            literal_word("this"),
            literal_word("is"),
            literal_word("a"),
            literal_word("test")
        ]
    )
}

#[test]
fn assignments_then_command_then_arguments() {
    let command = parse_simple_command("a=1 b=2 cmd x y");
    assert_eq!(
        command.assignments,
        vec![
            Assignment { name: "a".to_string(), value: literal_word("1") },
            Assignment { name: "b".to_string(), value: literal_word("2") },
        ]
    );
    assert_eq!(command.command, Some(literal_word("cmd")));
    assert_eq!(command.arguments, vec![literal_word("x"), literal_word("y")]);
    assert!(command.redirections.is_empty());
}

#[test]
fn try_word_to_assignment_splits_at_first_equals() {
    let w = literal_word("name=va=lue");
    let a = posixutils::parser::try_word_to_assignment(w).unwrap();
    assert_eq!(a.name, "name".to_string());
    assert_eq!(a.value, literal_word("va=lue"));
}

#[test]
fn try_word_to_assignment_rejects_plain_word() {
    let w = literal_word("word");
    let r = posixutils::parser::try_word_to_assignment(w);
    assert_eq!(r, Err(literal_word("word")));
}

#[test]
fn try_into_name_takes_single_literal() {
    assert_eq!(
        posixutils::parser::try_into_name(literal_word("hello")),
        Ok("hello".to_string())
    );
}
