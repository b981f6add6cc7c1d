use posixutils::ast::{Command, LogicalOp, Word, WordPart};
use posixutils::parser::{parse, ParseError};

fn command_name(c: &Command) -> String {
    match c {
        Command::SimpleCommand(sc) => match &sc.command {
            Some(Word { parts }) => match &parts[0] {
                WordPart::Literal(s) => s.clone(),
                _ => panic!("expected literal command name"),
            },
            None => panic!("expected a command word"),
        },
        _ => panic!("expected a simple command"),
    }
}

#[test]
fn conjunction_keeps_pipeline_order_and_operators() {
    let program = parse("a && b || c").unwrap();
    assert_eq!(program.commands.len(), 1);
    let complete = &program.commands[0];
    assert_eq!(complete.commands.len(), 1);
    let conjunction = &complete.commands[0];
    assert!(!conjunction.is_async);
    assert_eq!(conjunction.elements.len(), 3);
    assert_eq!(command_name(&conjunction.elements[0].0.commands[0]), "a");
    assert_eq!(conjunction.elements[0].1, LogicalOp::And);
    assert_eq!(command_name(&conjunction.elements[1].0.commands[0]), "b");
    assert_eq!(conjunction.elements[1].1, LogicalOp::Or);
    assert_eq!(command_name(&conjunction.elements[2].0.commands[0]), "c");
    assert_eq!(conjunction.elements[2].1, LogicalOp::End);
}

#[test]
fn trailing_ampersand_marks_conjunction_asynchronous() {
    let program = parse("a &").unwrap();
    assert_eq!(program.commands.len(), 1);
    let complete = &program.commands[0];
    assert_eq!(complete.commands.len(), 1);
    assert!(complete.commands[0].is_async);
}

#[test]
fn unterminated_command_substitution_is_a_single_fatal_error() {
    assert_eq!(parse("echo $("), Err(ParseError::UnterminatedSubstitution));
}

#[test]
fn command_substitution_parses_the_embedded_program() {
    let program = parse("echo $(ls dir)").unwrap();
    let complete = &program.commands[0];
    let conjunction = &complete.commands[0];
    let pipeline = &conjunction.elements[0].0;
    match &pipeline.commands[0] {
        Command::SimpleCommand(sc) => {
            assert_eq!(sc.arguments.len(), 1);
            match &sc.arguments[0].parts[0] {
                WordPart::CommandSubstitution(inner) => {
                    let inner_complete = &inner.commands[0];
                    let inner_conj = &inner_complete.commands[0];
                    assert_eq!(
                        command_name(&inner_conj.elements[0].0.commands[0]),
                        "ls"
                    );
                },
                other => panic!("expected a command substitution, got {:?}", other),
            }
        },
        _ => panic!("expected a simple command"),
    }
}

#[test]
fn backtick_substitution_parses_the_embedded_program() {
    let program = parse("echo `ls`").unwrap();
    let complete = &program.commands[0];
    let conjunction = &complete.commands[0];
    let pipeline = &conjunction.elements[0].0;
    match &pipeline.commands[0] {
        Command::SimpleCommand(sc) => match &sc.arguments[0].parts[0] {
            WordPart::CommandSubstitution(inner) => {
                let inner_conj = &inner.commands[0].commands[0];
                assert_eq!(command_name(&inner_conj.elements[0].0.commands[0]), "ls");
            },
            other => panic!("expected a command substitution, got {:?}", other),
        },
        _ => panic!("expected a simple command"),
    }
}

#[test]
fn pipeline_collects_commands_in_order() {
    let program = parse("a | b | c").unwrap();
    let conjunction = &program.commands[0].commands[0];
    let pipeline = &conjunction.elements[0].0;
    assert_eq!(pipeline.commands.len(), 3);
    assert_eq!(command_name(&pipeline.commands[0]), "a");
    assert_eq!(command_name(&pipeline.commands[1]), "b");
    assert_eq!(command_name(&pipeline.commands[2]), "c");
}

#[test]
fn semicolons_separate_conjunctions() {
    let program = parse("a ; b").unwrap();
    let complete = &program.commands[0];
    assert_eq!(complete.commands.len(), 2);
    assert!(!complete.commands[0].is_async);
}

#[test]
fn newlines_separate_complete_commands() {
    let program = parse("a\nb\n").unwrap();
    assert_eq!(program.commands.len(), 2);
}

#[test]
fn comments_are_skipped() {
    let program = parse("a # a comment\n").unwrap();
    assert_eq!(program.commands.len(), 1);
    let conjunction = &program.commands[0].commands[0];
    assert_eq!(command_name(&conjunction.elements[0].0.commands[0]), "a");
}

#[test]
fn empty_input_is_an_empty_program() {
    let program = parse("").unwrap();
    assert_eq!(program.commands.len(), 0);
    let blank = parse("\n\n").unwrap();
    assert_eq!(blank.commands.len(), 0);
}

#[test]
fn arithmetic_expansion_captures_raw_text() {
    let w = posixutils::parser::parse_word("$((1 + 2))").unwrap().unwrap();
    match &w.parts[0] {
        WordPart::ArithmeticExpansion(e) => assert_eq!(e.text, "1 + 2".to_string()),
        other => panic!("expected an arithmetic expansion, got {:?}", other),
    }
}
