use posixutils::ast::{Parameter, ParameterExpansion, Word, WordPart};
use posixutils::lexer::WordToken;
use posixutils::parser::Parser;

fn literal_word(contents: &str) -> Word {
    Word { parts: vec![WordPart::Literal(contents.to_string())] }
}

fn parse_word(word: &str) -> Word {
    let mut parser = Parser::new(word);
    parser.parse_word_until(WordToken::EOF, true).unwrap().unwrap()
}

fn parse_parameter_expansion(word: &str) -> ParameterExpansion {
    let word = parse_word(word);
    if let WordPart::ParameterExpansion(expansion) = word.parts.into_iter().next().unwrap() {
        expansion
    } else {
        panic!("expected parameter expansion")
    }
}

fn name(n: &str) -> Parameter {
    Parameter::Name(n.to_string())
}

#[test]
fn parse_simple_parameter_expansion() {
    assert_eq!(
        parse_parameter_expansion("$test"),
        ParameterExpansion::Simple(Parameter::Name("test".to_string()))
    );
    assert_eq!(
        parse_parameter_expansion("$1"),
        ParameterExpansion::Simple(Parameter::Number(1))
    );
    assert_eq!(
        parse_parameter_expansion("${test}"),
        ParameterExpansion::Simple(Parameter::Name("test".to_string()))
    );
    assert_eq!(
        parse_parameter_expansion("${12345}"),
        ParameterExpansion::Simple(Parameter::Number(12345))
    );
}

#[test]
fn parse_parameter_expansion_expression() {
    assert_eq!(
        parse_parameter_expansion("${test:-default}"),
        ParameterExpansion::NullUnsetUseDefault(name("test"), Some(literal_word("default")))
    );
    assert_eq!(
        parse_parameter_expansion("${test-default}"),
        ParameterExpansion::UnsetUseDefault(name("test"), Some(literal_word("default")))
    );
    assert_eq!(
        parse_parameter_expansion("${test:=default}"),
        ParameterExpansion::NullUnsetAssignDefault(name("test"), Some(literal_word("default")))
    );
    assert_eq!(
        parse_parameter_expansion("${test=default}"),
        ParameterExpansion::UnsetAssignDefault(name("test"), Some(literal_word("default")))
    );
    assert_eq!(
        parse_parameter_expansion("${test:?default}"),
        ParameterExpansion::NullUnsetError(name("test"), Some(literal_word("default")))
    );
    assert_eq!(
        parse_parameter_expansion("${test?default}"),
        ParameterExpansion::UnsetError(name("test"), Some(literal_word("default")))
    );
    assert_eq!(
        parse_parameter_expansion("${test:+default}"),
        ParameterExpansion::SetUseAlternative(name("test"), Some(literal_word("default")))
    );
    assert_eq!(
        parse_parameter_expansion("${test+default}"),
        ParameterExpansion::SetNullUseAlternative(name("test"), Some(literal_word("default")))
    );
}

#[test]
fn test_parse_parameter_expansion_expression_with_no_default() {
    assert_eq!(
        parse_parameter_expansion("${test:-}"),
        ParameterExpansion::NullUnsetUseDefault(name("test"), None)
    );
    assert_eq!(
        parse_parameter_expansion("${test-}"),
        ParameterExpansion::UnsetUseDefault(name("test"), None)
    );
    assert_eq!(
        parse_parameter_expansion("${test:=}"),
        ParameterExpansion::NullUnsetAssignDefault(name("test"), None)
    );
    assert_eq!(
        parse_parameter_expansion("${test=}"),
        ParameterExpansion::UnsetAssignDefault(name("test"), None)
    );
    assert_eq!(
        parse_parameter_expansion("${test:?}"),
        ParameterExpansion::NullUnsetError(name("test"), None)
    );
    assert_eq!(
        parse_parameter_expansion("${test?}"),
        ParameterExpansion::UnsetError(name("test"), None)
    );
    assert_eq!(
        parse_parameter_expansion("${test:+}"),
        ParameterExpansion::SetUseAlternative(name("test"), None)
    );
    assert_eq!(
        parse_parameter_expansion("${test+}"),
        ParameterExpansion::SetNullUseAlternative(name("test"), None)
    );
}

#[test]
fn parse_string_operations_in_parameter_expansion() {
    assert_eq!(
        parse_parameter_expansion("${#test}"),
        ParameterExpansion::StrLen(name("test"))
    );
    assert_eq!(
        parse_parameter_expansion("${test%pattern}"),
        ParameterExpansion::RemoveSmallestSuffix(name("test"), Some(literal_word("pattern")))
    );
    assert_eq!(
        parse_parameter_expansion("${test%%pattern}"),
        ParameterExpansion::RemoveLargestSuffix(name("test"), Some(literal_word("pattern")))
    );
    assert_eq!(
        parse_parameter_expansion("${test#pattern}"),
        ParameterExpansion::RemoveSmallestPrefix(name("test"), Some(literal_word("pattern")))
    );
    assert_eq!(
        parse_parameter_expansion("${test##pattern}"),
        ParameterExpansion::RemoveLargestPrefix(name("test"), Some(literal_word("pattern")))
    );
}

// The unset-or-empty and unset-only default forms stay distinct in the
// tree, so the expander can treat an empty-but-set variable differently.
#[test]
fn null_and_plain_default_forms_differ() {
    let with_colon = parse_parameter_expansion("${x:-d}");
    let without_colon = parse_parameter_expansion("${x-d}");
    assert_ne!(with_colon, without_colon);
    assert_eq!(
        with_colon,
        ParameterExpansion::NullUnsetUseDefault(name("x"), Some(literal_word("d")))
    );
    assert_eq!(
        without_colon,
        ParameterExpansion::UnsetUseDefault(name("x"), Some(literal_word("d")))
    );
}

#[test]
fn special_parameters_and_positional_digits() {
    assert_eq!(
        parse_parameter_expansion("$?"),
        ParameterExpansion::Simple(Parameter::Special('?'))
    );
    // A bare positional parameter is a single digit: `$12` is `$1`
    // followed by the literal `2`.
    let w = parse_word("$12");
    assert_eq!(
        w.parts,
        vec![
            WordPart::ParameterExpansion(ParameterExpansion::Simple(Parameter::Number(1))),
            WordPart::Literal("2".to_string()),
        ]
    );
}

#[test]
fn malformed_parameter_is_rejected() {
    let mut parser = Parser::new("${x^}");
    let r = parser.parse_word_until(WordToken::EOF, true);
    assert_eq!(r, Err(posixutils::parser::ParseError::InvalidParameterName));
}

#[test]
fn unterminated_braced_expansion_is_rejected() {
    let mut parser = Parser::new("${x:-d");
    let r = parser.parse_word_until(WordToken::EOF, true);
    assert_eq!(r, Err(posixutils::parser::ParseError::UnterminatedSubstitution));
}
