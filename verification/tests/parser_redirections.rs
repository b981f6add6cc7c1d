use posixutils::ast::{
    IORedirectionKind, Redirection, RedirectionKind, SimpleCommand, Word, WordPart,
};
use posixutils::parser::{ParseError, Parser};

fn literal_word(contents: &str) -> Word {
    Word { parts: vec![WordPart::Literal(contents.to_string())] }
}

fn parse_simple_command(text: &str) -> SimpleCommand {
    let mut parser = Parser::new(text);
    parser.advance_shell();
    parser.parse_simple_command().unwrap()
}

fn parse_single_redirection(text: &str) -> Redirection {
    let cmd = parse_simple_command(text);
    assert_eq!(cmd.command, None);
    assert!(cmd.arguments.is_empty());
    assert!(cmd.assignments.is_empty());
    assert_eq!(cmd.redirections.len(), 1);
    cmd.redirections.into_iter().next().unwrap()
}

#[test]
fn parse_redirections_without_file_descriptors() {
    assert_eq!(
        parse_single_redirection("> test_file"),
        Redirection {
            file_descriptor: None,
            kind: RedirectionKind::IORedirection {
                kind: IORedirectionKind::RedirectOutput,
                file: literal_word("test_file")
            }
        }
    );
    assert_eq!(
        parse_single_redirection(">| test_file"),
        Redirection {
            file_descriptor: None,
            kind: RedirectionKind::IORedirection {
                kind: IORedirectionKind::RedirectOutputClobber,
                file: literal_word("test_file")
            }
        }
    );
    assert_eq!(
        parse_single_redirection(">> test_file"),
        Redirection {
            file_descriptor: None,
            kind: RedirectionKind::IORedirection {
                kind: IORedirectionKind::RedirectOutputAppend,
                file: literal_word("test_file")
            }
        }
    );
    assert_eq!(
        parse_single_redirection(">& test_file"),
        Redirection {
            file_descriptor: None,
            kind: RedirectionKind::IORedirection {
                kind: IORedirectionKind::DuplicateOutput,
                file: literal_word("test_file")
            }
        }
    );
    assert_eq!(
        parse_single_redirection("< test_file"),
        Redirection {
            file_descriptor: None,
            kind: RedirectionKind::IORedirection {
                kind: IORedirectionKind::RedirectInput,
                file: literal_word("test_file")
            }
        }
    );
    assert_eq!(
        parse_single_redirection("<& test_file"),
        Redirection {
            file_descriptor: None,
            kind: RedirectionKind::IORedirection {
                kind: IORedirectionKind::DuplicateInput,
                file: literal_word("test_file")
            }
        }
    );
    assert_eq!(
        parse_single_redirection("<> test_file"),
        Redirection {
            file_descriptor: None,
            kind: RedirectionKind::IORedirection {
                kind: IORedirectionKind::OpenRW,
                file: literal_word("test_file")
            }
        }
    );
}

#[test]
fn parse_redirection_with_optional_file_descriptor() {
    assert_eq!(
        parse_single_redirection("2> test_file"),
        Redirection {
            file_descriptor: Some(2),
            kind: RedirectionKind::IORedirection {
                kind: IORedirectionKind::RedirectOutput,
                file: literal_word("test_file")
            }
        }
    );
}

#[test]
fn parse_simple_command_single_redirection() {
    let command = parse_simple_command("> file.txt");
    assert!(command.command.is_none());
    assert!(command.arguments.is_empty());
    assert!(command.assignments.is_empty());
    assert_eq!(command.redirections.len(), 1);
    assert_eq!(
        command.redirections[0].kind,
        RedirectionKind::IORedirection {
            kind: IORedirectionKind::RedirectOutput,
            file: literal_word("file.txt")
        }
    );
}

#[test]
fn parse_command_with_redirections() {
    let command = parse_simple_command("< input command > output");
    assert_eq!(command.command, Some(literal_word("command")));
    assert_eq!(
        command.redirections,
        vec![
            Redirection {
                file_descriptor: None,
                kind: RedirectionKind::IORedirection {
                    kind: IORedirectionKind::RedirectInput,
                    file: literal_word("input")
                }
            },
            Redirection {
                file_descriptor: None,
                kind: RedirectionKind::IORedirection {
                    kind: IORedirectionKind::RedirectOutput,
                    file: literal_word("output")
                }
            }
        ]
    );
    assert!(command.arguments.is_empty());
    assert!(command.assignments.is_empty());
}

#[test]
fn parse_simple_command_with_arguments_and_redirections() {
    let command = parse_simple_command("cat test_file.txt >> ../other_file.txt");
    assert_eq!(command.command, Some(literal_word("cat")));
    assert_eq!(command.arguments, vec![literal_word("test_file.txt")]);
    assert_eq!(
        command.redirections,
        vec![Redirection {
            file_descriptor: None,
            kind: RedirectionKind::IORedirection {
                kind: IORedirectionKind::RedirectOutputAppend,
                file: literal_word("../other_file.txt")
            }
        }]
    );
    assert!(command.assignments.is_empty());
}

#[test]
fn parse_simple_command_with_arguments_redirections_and_assignments() {
    let command = parse_simple_command("CARGO_LOG=warn cargo build > build_result.txt");
    assert_eq!(command.command, Some(literal_word("cargo")));
    assert_eq!(
        command.assignments,
        vec![posixutils::ast::Assignment {
            name: "CARGO_LOG".to_string(),
            value: literal_word("warn")
        }]
    );
    assert_eq!(command.arguments, vec![literal_word("build")]);
    assert_eq!(
        command.redirections,
        vec![Redirection {
            file_descriptor: None,
            kind: RedirectionKind::IORedirection {
                kind: IORedirectionKind::RedirectOutput,
                file: literal_word("build_result.txt")
            }
        }]
    )
}

#[test]
fn parse_here_document_redirection() {
    assert_eq!(
        parse_single_redirection("<<end\nthis\nis\n\ta\ntest\nend\n"),
        Redirection {
            file_descriptor: None,
            kind: RedirectionKind::HereDocument {
                contents: "this\nis\n\ta\ntest\n".to_string(),
                strip_leading_tabs: false,
            }
        }
    )
}

#[test]
fn parse_here_document_redirection_remove_leading_tabs() {
    assert_eq!(
        parse_single_redirection("<<-end\nthis\nis\n\ta\n\t\t\t\ttest\nend\n"),
        Redirection {
            file_descriptor: None,
            kind: RedirectionKind::HereDocument {
                contents: "this\nis\na\ntest\n".to_string(),
                strip_leading_tabs: true,
            }
        }
    )
}

#[test]
fn file_descriptor_above_nine_is_rejected() {
    let mut parser = Parser::new("12> file");
    parser.advance_shell();
    let r = parser.parse_simple_command();
    assert_eq!(r, Err(ParseError::InvalidFileDescriptor));
}
