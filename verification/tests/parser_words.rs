use posixutils::ast::{Word, WordPart};
use posixutils::lexer::WordToken;
use posixutils::parser::Parser;

fn literal_word(contents: &str) -> Word {
    Word { parts: vec![WordPart::Literal(contents.to_string())] }
}

fn parse_word(word: &str) -> Word {
    let mut parser = Parser::new(word);
    parser.parse_word_until(WordToken::EOF, true).unwrap().unwrap()
}

#[test]
fn parse_simple_word() {
    assert_eq!(parse_word("hello"), literal_word("hello"));
}

#[test]
fn parse_word_with_single_quotes() {
    assert_eq!(
        parse_word("'single quoted string ${test} `command` $((1 + 1)) $(command2) \nnewline'"),
        literal_word("'single quoted string ${test} `command` $((1 + 1)) $(command2) \nnewline'")
    );
}

#[test]
fn sigle_quotes_inside_dobule_quotes_are_ignored() {
    assert_eq!(parse_word("\"'\""), literal_word("\"'\""));
}

#[test]
fn parse_simple_word_with_double_quotes() {
    assert_eq!(
        parse_word("\"double quoted string \nnewline\""),
        literal_word("\"double quoted string \nnewline\"")
    );
}

#[test]
fn unterminated_single_quote_is_rejected() {
    let mut parser = Parser::new("'no end");
    let r = parser.parse_word_until(WordToken::EOF, true);
    assert_eq!(r, Err(posixutils::parser::ParseError::UnterminatedQuote));
}

#[test]
fn unterminated_double_quote_is_rejected() {
    let mut parser = Parser::new("\"no end");
    let r = parser.parse_word_until(WordToken::EOF, true);
    assert_eq!(r, Err(posixutils::parser::ParseError::UnterminatedQuote));
}

#[test]
fn parse_word_free_function_matches_helper() {
    let w = posixutils::parser::parse_word("hello").unwrap().unwrap();
    assert_eq!(w, literal_word("hello"));
}

#[test]
fn word_stops_at_unquoted_blank() {
    let mut parser = Parser::new("one two");
    let w = parser.parse_word_until(WordToken::EOF, true).unwrap().unwrap();
    assert_eq!(w, literal_word("one"));
}
