use posixutils::edcmd::{tokenizer, Address, AddressInfo, Command, Token};
use posixutils::editor::{trim_end_spaces, Editor};

#[test]
fn tokenizer_classifies_addresses_and_commands() {
    let tokens = tokenizer("1,2p").unwrap();
    assert_eq!(
        tokens,
        vec![
            Token::Number(1),
            Token::AddressSeparator(','),
            Token::Number(2),
            Token::Command('p'),
        ]
    );
}

#[test]
fn tokenizer_reads_regexes_and_marks() {
    assert_eq!(
        tokenizer("/ab/p").unwrap(),
        vec![Token::RegexForward("ab".to_string()), Token::Command('p')]
    );
    assert_eq!(
        tokenizer("?xy?").unwrap(),
        vec![Token::RegexBack("xy".to_string())]
    );
    assert_eq!(tokenizer("'m").unwrap(), vec![Token::Mark('m')]);
}

#[test]
fn tokenizer_reads_offsets() {
    assert_eq!(tokenizer("+3").unwrap(), vec![Token::Offset(3)]);
    assert_eq!(tokenizer("-2").unwrap(), vec![Token::Offset(-2)]);
    assert_eq!(tokenizer(". $").unwrap(), vec![Token::CurrentLine, Token::LastLine]);
}

#[test]
fn tokenizer_rejects_unknown_characters() {
    assert!(tokenizer("%").is_err());
    assert!(tokenizer("/never closed").is_err());
    assert!(tokenizer("'").is_err());
}

#[test]
fn command_parse_recognizes_append_insert_quit_write() {
    assert_eq!(Command::from_line("q"), Ok(Command::Quit));
    assert_eq!(
        Command::from_line("5a"),
        Ok(Command::Insert(
            Some(Address { info: AddressInfo::Line(5), offsets: vec![] }),
            false
        ))
    );
    assert_eq!(
        Command::from_line("i"),
        Ok(Command::Insert(None, true))
    );
    assert_eq!(Command::from_line("w"), Ok(Command::Write(None, None, None, false)));
}

#[test]
fn command_parse_rejects_bad_input() {
    assert_eq!(
        Command::from_line("x"),
        Err("unrecognized command".to_string())
    );
    assert_eq!(
        Command::from_line("1q"),
        Err("quit command takes no address".to_string())
    );
    assert!(Command::from_line("").is_err());
}

#[test]
fn trim_end_removes_trailing_whitespace() {
    assert_eq!(trim_end_spaces("q  \n"), "q".to_string());
    assert_eq!(trim_end_spaces("ab"), "ab".to_string());
    assert_eq!(trim_end_spaces("   "), "".to_string());
}

#[test]
fn editor_quit_stops_the_loop() {
    let mut ed = Editor::new();
    assert!(!ed.push_line("q\n"));
}

#[test]
fn editor_gathers_input_lines_until_dot() {
    let mut ed = Editor::new();
    // `a` queues an append command; draining the queue enters input mode.
    assert!(ed.push_line("a\n"));
    assert!(ed.bottom_half());
    assert!(!ed.in_cmd_mode);
    assert!(ed.push_line("hello\n"));
    assert!(ed.push_line("world\n"));
    assert_eq!(ed.inputs.len(), 2);
    assert!(ed.push_line("."));
    assert!(ed.in_cmd_mode);
    assert_eq!(ed.inputs.len(), 2);
}

#[test]
fn resolve_address_follows_the_address_form() {
    let mut ed = Editor::new();
    let mut chunk = posixutils::buffer::Chunk::new();
    chunk.push_line("x\n");
    chunk.push_line("y\n");
    ed.buf.append(chunk);
    ed.buf.set_cur_line(2);
    assert_eq!(ed.resolve_address(&None), Ok(2));
    assert_eq!(
        ed.resolve_address(&Some(Address { info: AddressInfo::Last, offsets: vec![] })),
        Ok(2)
    );
    assert_eq!(
        ed.resolve_address(&Some(Address { info: AddressInfo::Line(7), offsets: vec![] })),
        Ok(7)
    );
    assert_eq!(
        ed.resolve_address(&Some(Address { info: AddressInfo::Offset(-1), offsets: vec![] })),
        Ok(1)
    );
    assert!(
        ed.resolve_address(&Some(Address { info: AddressInfo::Offset(-9), offsets: vec![] }))
            .is_err()
    );
}
