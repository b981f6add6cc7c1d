//! Tokenizer and parser for `ed` command lines: addresses (line numbers,
//! marks, regular-expression searches, offsets) followed by a one-letter
//! command.

use crate::lexer::{digit_run_val, lemma_digit_run_val_monotone, lemma_digit_run_val_nonneg,
    spec_digit_val, spec_is_digit};
use crate::text::chars_of;
use vstd::prelude::*;
use vstd::string::StringExecFns;

verus! {

/// A failure while splitting a command line into tokens.
#[derive(Debug)]
pub struct SyntaxError {
    pub message: String,
}

impl SyntaxError {
    pub fn new(message: String) -> (r: Self)
        ensures
            r.message == message,
    {
        SyntaxError { message }
    }
}

/// One token of an `ed` command line.
#[derive(Debug, PartialEq)]
pub enum Token {
    /// `.`
    CurrentLine,
    /// `$`
    LastLine,
    Number(u64),
    Mark(char),
    RegexForward(String),
    RegexBack(String),
    Offset(isize),
    AddressSeparator(char),
    Command(char),
}

/// An ASCII letter.
pub open spec fn spec_is_ascii_alpha(c: char) -> bool {
    ('a' <= c && c <= 'z') || ('A' <= c && c <= 'Z')
}

#[verifier::when_used_as_spec(spec_is_ascii_alpha)]
pub fn is_ascii_alpha(c: char) -> (r: bool)
    ensures
        r == spec_is_ascii_alpha(c),
{
    ('a' <= c && c <= 'z') || ('A' <= c && c <= 'Z')
}

/// Whitespace as the tokenizer skips it.
pub open spec fn spec_is_space(c: char) -> bool {
    c == ' ' || c == '\t' || c == '\n' || c == '\r'
}

#[verifier::when_used_as_spec(spec_is_space)]
pub fn is_space(c: char) -> (r: bool)
    ensures
        r == spec_is_space(c),
{
    c == ' ' || c == '\t' || c == '\n' || c == '\r'
}

/// Structural soundness of one produced token: marks and commands are
/// letters, plain line numbers start from 1, separators are `,` or `;`.
pub open spec fn token_wf(t: Token) -> bool {
    match t {
        Token::Mark(c) => spec_is_ascii_alpha(c),
        Token::Command(c) => spec_is_ascii_alpha(c),
        Token::Number(n) => n >= 1,
        Token::AddressSeparator(c) => c == ',' || c == ';',
        _ => true,
    }
}

/// A character that can begin an `ed` token.
pub open spec fn spec_starts_token(c: char) -> bool {
    c == '.' || c == '$' || spec_is_ascii_alpha(c) || ('1' <= c && c <= '9') || c == '\'' || c
        == ',' || c == ';' || c == '/' || c == '?' || c == '+' || c == '-'
}

/// Split an `ed` command line into tokens.  Every token of a successful
/// result is structurally sound; input consisting only of whitespace
/// yields no tokens at all.  Three families are pinned exactly: a single
/// letter tokenizes to that command, a line number followed by a letter to
/// the number and the command, and a leading character that starts no
/// token is rejected.
pub fn tokenizer(input: &str) -> (r: Result<Vec<Token>, SyntaxError>)
    ensures
        (r matches Ok(ts) ==> forall|k: int| 0 <= k < ts@.len() ==> token_wf(#[trigger] ts@[k])),
        ((forall|k: int| 0 <= k < input@.len() ==> spec_is_space(#[trigger] input@[k]))
            ==> (r matches Ok(ts) && ts@.len() == 0)),
        (input@.len() == 1 && spec_is_ascii_alpha(input@[0]) ==> (r matches Ok(ts) && ts@.len()
            == 1 && ts@[0] == Token::Command(input@[0]))),
        ({
            let m = input@.len() as int - 1;
            (input@.len() >= 2 && '1' <= input@[0] <= '9' && (forall|k: int|
                0 <= k < m ==> spec_is_digit(#[trigger] input@[k])) && spec_is_ascii_alpha(
                input@[m],
            ) && digit_run_val(input@, 0, m) <= u64::MAX) ==> (r matches Ok(ts) && ts@.len() == 2
                && ts@[0] == Token::Number(digit_run_val(input@, 0, m) as u64) && ts@[1]
                == Token::Command(input@[m]))
        }),
        (input@.len() > 0 && !spec_is_space(input@[0]) && !spec_starts_token(input@[0]) ==> r
            is Err),
{
    let chars = chars_of(input);
    let n = chars.len();
    let mut tokens: Vec<Token> = Vec::new();
    let mut i: usize = 0;
    let ghost all_space = forall|k: int| 0 <= k < input@.len() ==> spec_is_space(#[trigger] input@[k]);
    let ghost m: int = input@.len() as int - 1;
    let ghost f1 = input@.len() == 1 && spec_is_ascii_alpha(input@[0]);
    let ghost f2 = input@.len() >= 2 && '1' <= input@[0] <= '9' && (forall|k: int|
        0 <= k < m ==> spec_is_digit(#[trigger] input@[k])) && spec_is_ascii_alpha(input@[m])
        && digit_run_val(input@, 0, m) <= u64::MAX;
    let ghost f3 = input@.len() > 0 && !spec_is_space(input@[0]) && !spec_starts_token(input@[0]);
    while i < n
        invariant
            i <= n,
            n == chars@.len(),
            chars@ == input@,
            all_space == (forall|k: int|
                0 <= k < input@.len() ==> spec_is_space(#[trigger] input@[k])),
            m == input@.len() as int - 1,
            f1 == (input@.len() == 1 && spec_is_ascii_alpha(input@[0])),
            f2 == (input@.len() >= 2 && '1' <= input@[0] <= '9' && (forall|k: int|
                0 <= k < m ==> spec_is_digit(#[trigger] input@[k])) && spec_is_ascii_alpha(
                input@[m],
            ) && digit_run_val(input@, 0, m) <= u64::MAX),
            f3 == (input@.len() > 0 && !spec_is_space(input@[0]) && !spec_starts_token(
                input@[0],
            )),
            forall|k: int| 0 <= k < tokens@.len() ==> token_wf(#[trigger] tokens@[k]),
            all_space ==> tokens@.len() == 0,
            f1 ==> ((i == 0 && tokens@.len() == 0) || (i == 1 && tokens@.len() == 1 && tokens@[0]
                == Token::Command(input@[0]))),
            f2 ==> ((i == 0 && tokens@.len() == 0) || (i as int == m && tokens@.len() == 1
                && tokens@[0] == Token::Number(digit_run_val(input@, 0, m) as u64)) || (i as int
                == m + 1 && tokens@.len() == 2 && tokens@[0] == Token::Number(
                digit_run_val(input@, 0, m) as u64,
            ) && tokens@[1] == Token::Command(input@[m]))),
            f3 ==> (i == 0 && tokens@.len() == 0),
        decreases n - i,
    {
        let ghost i_start = i;
        let ch = chars[i];
        i = i + 1;
        proof {
            if all_space {
                assert(spec_is_space(input@[i as int - 1]));
            }
        }
        if is_space(ch) {
            continue;
        }
        if ch == '.' {
            tokens.push(Token::CurrentLine);
        } else if ch == '$' {
            tokens.push(Token::LastLine);
        } else if is_ascii_alpha(ch) {
            let ghost pre = tokens@;
            tokens.push(Token::Command(ch));
            proof {
                if f1 || f2 {
                    assert(tokens@.drop_last() =~= pre);
                }
            }
        } else if '1' <= ch && ch <= '9' {
            let mut value: u64 = ch as u64 - '0' as u64;
            proof {
                if f2 {
                    assert(digit_run_val(input@, 0, 0) == 0);
                    assert(value == digit_run_val(input@, 0, 1));
                }
            }
            while i < n && '0' <= chars[i] && chars[i] <= '9'
                invariant
                    i_start < i <= n,
                    n == chars@.len(),
                    chars@ == input@,
                    1 <= value,
                    !all_space,
                    all_space == (forall|k: int|
                        0 <= k < input@.len() ==> spec_is_space(#[trigger] input@[k])),
                    m == input@.len() as int - 1,
                    f2 == (input@.len() >= 2 && '1' <= input@[0] <= '9' && (forall|k: int|
                        0 <= k < m ==> spec_is_digit(#[trigger] input@[k]))
                        && spec_is_ascii_alpha(input@[m]) && digit_run_val(input@, 0, m)
                        <= u64::MAX),
                    f2 ==> (i_start == 0 && 1 <= i as int <= m && value == digit_run_val(
                        input@,
                        0,
                        i as int,
                    ) && tokens@.len() == 0),
                decreases n - i,
            {
                let d = chars[i] as u64 - '0' as u64;
                proof {
                    if f2 {
                        assert(digit_run_val(input@, 0, i + 1) == digit_run_val(input@, 0, i as int)
                            * 10 + spec_digit_val(input@[i as int]));
                        lemma_digit_run_val_nonneg(input@, 0, i + 1);
                        lemma_digit_run_val_monotone(input@, 0, i + 1, m);
                    }
                }
                if value > (u64::MAX - d) / 10 {
                    return Err(SyntaxError::new(String::from_str("line number out of range")));
                }
                value = value * 10 + d;
                i = i + 1;
            }
            let ghost pre = tokens@;
            tokens.push(Token::Number(value));
            proof {
                if f2 {
                    assert(tokens@.drop_last() =~= pre);
                }
            }
        } else if ch == '\'' {
            if i < n {
                let mark_ch = chars[i];
                i = i + 1;
                if is_ascii_alpha(mark_ch) {
                    tokens.push(Token::Mark(mark_ch));
                } else {
                    let mut msg = String::from_str("unrecognized mark character ");
                    crate::text::push_char(&mut msg, ch);
                    return Err(SyntaxError::new(msg));
                }
            } else {
                return Err(SyntaxError::new(String::from_str("missing mark char")));
            }
        } else if ch == ',' || ch == ';' {
            tokens.push(Token::AddressSeparator(ch));
        } else if ch == '/' || ch == '?' {
            let mut bre = String::new();
            let mut escaped = false;
            let mut done = false;
            while i < n && !done
                invariant
                    i_start < i <= n,
                    n == chars@.len(),
                decreases n - i,
            {
                let bre_ch = chars[i];
                i = i + 1;
                if bre_ch == '/' || bre_ch == '?' {
                    if escaped {
                        crate::text::push_char(&mut bre, bre_ch);
                        escaped = false;
                    } else {
                        done = true;
                    }
                } else if bre_ch == '\\' {
                    if escaped {
                        crate::text::push_char(&mut bre, bre_ch);
                        escaped = false;
                    } else {
                        escaped = true;
                    }
                } else {
                    crate::text::push_char(&mut bre, bre_ch);
                    escaped = false;
                }
            }
            if !done {
                return Err(SyntaxError::new(String::from_str("unterminated regex")));
            }
            if ch == '/' {
                tokens.push(Token::RegexForward(bre));
            } else {
                tokens.push(Token::RegexBack(bre));
            }
        } else if ch == '+' || ch == '-' {
            let mut magnitude: usize = 0;
            while i < n && '0' <= chars[i] && chars[i] <= '9'
                invariant
                    i_start < i <= n,
                    n == chars@.len(),
                    chars@ == input@,
                    magnitude <= 0x7fff_ffff,
                    !all_space,
                    all_space == (forall|k: int|
                        0 <= k < input@.len() ==> spec_is_space(#[trigger] input@[k])),
                    m == input@.len() as int - 1,
                    f1 == (input@.len() == 1 && spec_is_ascii_alpha(input@[0])),
                    f2 == (input@.len() >= 2 && '1' <= input@[0] <= '9' && (forall|k: int|
                        0 <= k < m ==> spec_is_digit(#[trigger] input@[k]))
                        && spec_is_ascii_alpha(input@[m]) && digit_run_val(input@, 0, m)
                        <= u64::MAX),
                    !f1,
                    !f2,
                decreases n - i,
            {
                let d = chars[i] as usize - '0' as usize;
                if magnitude > (0x7fff_ffffusize - d) / 10 {
                    return Err(SyntaxError::new(String::from_str("offset out of range")));
                }
                magnitude = magnitude * 10 + d;
                i = i + 1;
            }
            let off: isize = if ch == '-' {
                -(magnitude as isize)
            } else {
                magnitude as isize
            };
            tokens.push(Token::Offset(off));
        } else {
            let mut msg = String::from_str("unrecognized character ");
            crate::text::push_char(&mut msg, ch);
            return Err(SyntaxError::new(msg));
        }
    }
    Ok(tokens)
}

/// One way of naming a line.
#[derive(Debug, PartialEq)]
pub enum AddressInfo {
    Current,
    Last,
    Line(usize),
    Mark(char),
    RegexForward(String),
    RegexBack(String),
    Offset(isize),
}

/// A base address plus any number of relative offsets.
#[derive(Debug, PartialEq)]
pub struct Address {
    pub info: AddressInfo,
    pub offsets: Vec<isize>,
}

impl Address {
    pub fn new() -> (r: Self)
        ensures
            r.info == AddressInfo::Current,
            r.offsets@.len() == 0,
    {
        Address { info: AddressInfo::Current, offsets: Vec::new() }
    }

    pub fn add_offset(&mut self, offset: isize)
        ensures
            final(self).info == old(self).info,
            final(self).offsets@ == old(self).offsets@.push(offset),
    {
        self.offsets.push(offset);
    }
}

/// A parsed `ed` command.
#[derive(Debug, PartialEq)]
pub enum Command {
    Insert(Option<Address>, bool),
    Change(String),
    Copy(usize),
    Delete,
    Global(String, String, bool, bool, bool),
    GlobalNotMatched(String, Vec<Command>),
    InteractiveGlobalNotMatched(String, Vec<Command>),
    Move(isize),
    NoOp,
    Print(PrintMode),
    Read(String),
    Quit,
    Write(Option<Address>, Option<Address>, Option<String>, bool),
}

#[derive(Debug, PartialEq)]
pub enum PrintMode {
    Line,
    NextLine,
    PreviousLine,
}

enum ParseState {
    Address,
    SepOffCommand,
    Command,
}

impl Command {
    /// Run the address-then-command state machine over the tokens.  Only
    /// the append/insert, quit and write commands are recognized today, so
    /// a successful parse is always one of those.
    pub fn parse(tokens: Vec<Token>) -> (r: Result<Command, String>)
        ensures
            (r matches Ok(c) ==> (c is Insert || c is Quit || c is Write)),
            tokens@.len() == 0 ==> r is Err,
            (tokens@.len() == 1 ==> (tokens@[0] matches Token::Command(ch) ==> {
                if ch == 'q' {
                    r == Ok::<Command, String>(Command::Quit)
                } else if ch == 'a' {
                    r == Ok::<Command, String>(Command::Insert(None, false))
                } else if ch == 'i' {
                    r == Ok::<Command, String>(Command::Insert(None, true))
                } else if ch == 'w' {
                    r == Ok::<Command, String>(Command::Write(None, None, None, false))
                } else {
                    r is Err
                }
            })),
            (tokens@.len() == 2 ==> (tokens@[0] matches Token::Number(nv) ==> (tokens@[1]
                matches Token::Command(ch) ==> (nv <= usize::MAX ==> {
                if ch == 'a' {
                    r matches Ok(c) && (c matches Command::Insert(ao, before) && !before && (ao
                        matches Some(ad) && ad.info == AddressInfo::Line(nv as usize)
                        && ad.offsets@.len() == 0))
                } else if ch == 'i' {
                    r matches Ok(c) && (c matches Command::Insert(ao, before) && before && (ao
                        matches Some(ad) && ad.info == AddressInfo::Line(nv as usize)
                        && ad.offsets@.len() == 0))
                } else if ch == 'w' {
                    r matches Ok(c) && (c matches Command::Write(a1, a2, fname, fl) && !fl && a2
                        is None && fname is None && (a1 matches Some(ad) && ad.info
                        == AddressInfo::Line(nv as usize) && ad.offsets@.len() == 0))
                } else {
                    r is Err
                }
            })))),
    {
        let ghost bare_command = tokens@.len() == 1 && tokens@[0] is Command;
        let ghost two_tok = tokens@.len() == 2 && (tokens@[0] matches Token::Number(nv) && nv
            <= usize::MAX) && tokens@[1] is Command;
        let n = tokens.len();
        let mut addr = Address::new();
        let mut addr_dirty = false;
        let mut addrvec: Vec<Address> = Vec::new();
        let mut state = ParseState::Address;
        let mut i: usize = 0;
        loop
            invariant_except_break
                i <= n,
                n == tokens@.len(),
                bare_command == (tokens@.len() == 1 && tokens@[0] is Command),
                bare_command ==> {
                    &&& i == 0
                    &&& addrvec@.len() == 0
                    &&& !(state is SepOffCommand)
                },
                two_tok == (tokens@.len() == 2 && (tokens@[0] matches Token::Number(nv) && nv
                    <= usize::MAX) && tokens@[1] is Command),
                two_tok ==> ((i == 0 && addrvec@.len() == 0 && !addr_dirty && state is Address
                    && addr.offsets@.len() == 0) || (i == 1 && addr_dirty && addr.info
                    == AddressInfo::Line(
                    tokens@[0]->Number_0 as usize,
                ) && addr.offsets@.len() == 0 && addrvec@.len() == 0 && state is SepOffCommand)
                    || (i == 1 && !addr_dirty && addrvec@.len() == 1 && addrvec@[0].info
                    == AddressInfo::Line(tokens@[0]->Number_0 as usize)
                    && addrvec@[0].offsets@.len() == 0 && state is Command)),
            ensures
                !(tokens@.len() == 1 && tokens@[0] is Command),
                !(tokens@.len() == 2 && (tokens@[0] matches Token::Number(nv) && nv
                    <= usize::MAX) && tokens@[1] is Command),
            decreases
                    n - i,
                    (match state {
                        ParseState::Command => 0int,
                        _ => 1int,
                    }),
        {
            if i >= n {
                break;
            }
            match state {
                ParseState::Address => {
                    state = ParseState::SepOffCommand;
                    addr_dirty = true;
                    let is_command = match &tokens[i] {
                        Token::Command(_) => true,
                        _ => false,
                    };
                    if is_command {
                        state = ParseState::Command;
                        addr_dirty = false;
                        continue;
                    }
                    match &tokens[i] {
                        Token::CurrentLine => {
                            addr.info = AddressInfo::Current;
                        },
                        Token::LastLine => {
                            addr.info = AddressInfo::Last;
                        },
                        Token::Number(v) => {
                            addr.info = AddressInfo::Line(#[verifier::truncate] (*v as usize));
                        },
                        Token::Mark(ch) => {
                            addr.info = AddressInfo::Mark(*ch);
                        },
                        Token::RegexForward(s) => {
                            addr.info = AddressInfo::RegexForward(s.clone());
                        },
                        Token::RegexBack(s) => {
                            addr.info = AddressInfo::RegexBack(s.clone());
                        },
                        Token::Offset(v) => {
                            addr.info = AddressInfo::Offset(*v);
                        },
                        Token::AddressSeparator(ch) => {
                            if *ch == ',' {
                                addr.info = AddressInfo::Line(1);
                            }
                        },
                        _ => {
                            return Err(String::from_str("unexpected token"));
                        },
                    }
                    i = i + 1;
                },
                ParseState::SepOffCommand => {
                    if addr_dirty {
                        let mut full = Address::new();
                        core::mem::swap(&mut full, &mut addr);
                        let ghost pre = addrvec@;
                        addrvec.push(full);
                        proof {
                            if two_tok {
                                assert(addrvec@.drop_last() =~= pre);
                            }
                        }
                        addr_dirty = false;
                    }
                    let is_command = match &tokens[i] {
                        Token::Command(_) => true,
                        _ => false,
                    };
                    if is_command {
                        state = ParseState::Command;
                        continue;
                    }
                    match &tokens[i] {
                        Token::AddressSeparator(_) => {
                            state = ParseState::Address;
                        },
                        Token::Offset(v) => {
                            addr.add_offset(*v);
                        },
                        _ => {
                            return Err(String::from_str("unexpected token"));
                        },
                    }
                    i = i + 1;
                },
                ParseState::Command => {
                    match &tokens[i] {
                        Token::Command(ch) => {
                            if *ch == 'a' {
                                if addrvec.len() > 1 {
                                    return Err(
                                        String::from_str(
                                            "Append command takes at most one address",
                                        ),
                                    );
                                }
                                return Ok(Command::Insert(addrvec.pop(), false));
                            } else if *ch == 'i' {
                                if addrvec.len() > 1 {
                                    return Err(
                                        String::from_str(
                                            "Insert command takes at most one address",
                                        ),
                                    );
                                }
                                return Ok(Command::Insert(addrvec.pop(), true));
                            } else if *ch == 'q' {
                                if addrvec.len() > 0 {
                                    return Err(String::from_str("quit command takes no address"));
                                }
                                return Ok(Command::Quit);
                            } else if *ch == 'w' {
                                if addrvec.len() > 2 {
                                    return Err(
                                        String::from_str(
                                            "write command takes at most two addresses",
                                        ),
                                    );
                                }
                                return Ok(Command::Write(addrvec.pop(), addrvec.pop(), None, false));
                            } else {
                                return Err(String::from_str("unrecognized command"));
                            }
                        },
                        _ => {
                            return Err(String::from_str("unexpected token"));
                        },
                    }
                },
            }
        }
        Err(String::from_str("address-and-command parse error"))
    }

    /// Tokenize and parse one command line.  A lone command letter and a
    /// line number followed by a command letter are pinned end to end:
    /// `q` quits (and takes no address), `a`/`i` insert after/before, `w`
    /// writes, anything else is rejected, as is a line starting with a
    /// character that begins no token.
    pub fn from_line(line: &str) -> (r: Result<Command, String>)
        ensures
            (r matches Ok(c) ==> (c is Insert || c is Quit || c is Write)),
            line@.len() == 0 ==> r is Err,
            (line@.len() == 1 && spec_is_ascii_alpha(line@[0]) ==> {
                if line@[0] == 'q' {
                    r == Ok::<Command, String>(Command::Quit)
                } else if line@[0] == 'a' {
                    r == Ok::<Command, String>(Command::Insert(None, false))
                } else if line@[0] == 'i' {
                    r == Ok::<Command, String>(Command::Insert(None, true))
                } else if line@[0] == 'w' {
                    r == Ok::<Command, String>(Command::Write(None, None, None, false))
                } else {
                    r is Err
                }
            }),
            ({
                let m = line@.len() as int - 1;
                let v = digit_run_val(line@, 0, m);
                (line@.len() >= 2 && '1' <= line@[0] <= '9' && (forall|k: int|
                    0 <= k < m ==> spec_is_digit(#[trigger] line@[k])) && spec_is_ascii_alpha(
                    line@[m],
                ) && v <= usize::MAX) ==> {
                    if line@[m] == 'a' {
                        r matches Ok(c) && (c matches Command::Insert(ao, before) && !before && (
                        ao matches Some(ad) && ad.info == AddressInfo::Line(v as usize)
                            && ad.offsets@.len() == 0))
                    } else if line@[m] == 'i' {
                        r matches Ok(c) && (c matches Command::Insert(ao, before) && before && (ao
                            matches Some(ad) && ad.info == AddressInfo::Line(v as usize)
                            && ad.offsets@.len() == 0))
                    } else if line@[m] == 'w' {
                        r matches Ok(c) && (c matches Command::Write(a1, a2, fname, fl) && !fl
                            && a2 is None && fname is None && (a1 matches Some(ad) && ad.info
                            == AddressInfo::Line(v as usize) && ad.offsets@.len() == 0))
                    } else {
                        r is Err
                    }
                }
            }),
            (line@.len() > 0 && !spec_is_space(line@[0]) && !spec_starts_token(line@[0]) ==> r
                is Err),
    {
        proof {
            let m = line@.len() as int - 1;
            if line@.len() >= 2 && (forall|k: int|
                0 <= k < m ==> spec_is_digit(#[trigger] line@[k])) {
                lemma_digit_run_val_nonneg(line@, 0, m);
            }
        }
        match tokenizer(line) {
            Err(e) => Err(e.message),
            Ok(tokens) => Self::parse(tokens),
        }
    }
}

} // verus!
