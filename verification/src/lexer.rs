//! The two lexical layers of the shell front end.
//!
//! The *shell-level* lexer produces statement-granularity tokens: operators
//! recognized by longest match, a marker that a word begins, a
//! file-descriptor number glued to a redirection operator, newline and end of
//! input.  The *word-level* lexer produces character-granularity tokens while
//! the grammar is inside a word.  Both read from a single [`Lexer`] cursor,
//! which also hands out raw characters (for single-quoted text) and raw lines
//! (for here-document bodies).
//!
//! Every token function carries a full functional specification: the spec
//! functions in this module say exactly which token starts at a given
//! position and where it ends.

use crate::text::{chars_of, push_char};
use vstd::prelude::*;

verus! {

/// Statement-granularity tokens of the shell grammar.
#[derive(Debug, Clone, Copy, PartialEq, Eq, Structural)]
pub enum ShellToken {
    /// `&`
    And,
    /// `&&`
    AndIf,
    /// `|`
    Pipe,
    /// `||`
    OrIf,
    /// `;`
    SemiColon,
    /// `;;`
    DSemi,
    /// `;&`
    SemiAnd,
    /// `<`
    Less,
    /// `<<`
    DLess,
    /// `<<-`
    DLessDash,
    /// `<&`
    LessAnd,
    /// `<>`
    LessGreat,
    /// `>`
    Greater,
    /// `>>`
    DGreat,
    /// `>|`
    Clobber,
    /// `>&`
    GreatAnd,
    /// `(`
    LParen,
    /// `)`
    RParen,
    /// A run of digits immediately followed by a redirection operator.
    IoNumber(u32),
    /// The next characters begin an ordinary word; nothing is consumed.
    WordStart,
    Newline,
    EOF,
}

/// Character-granularity tokens emitted while inside a word.
#[derive(Debug, Clone, Copy, PartialEq, Eq, Structural)]
pub enum WordToken {
    SingleQuote,
    DoubleQuote,
    /// `$`, the parameter-expansion trigger.
    Dollar,
    /// `` ` ``, the command-substitution trigger.
    Backtick,
    /// `$(`
    CommandSubstitutionStart,
    /// `$((`
    ArithmeticExpansionStart,
    /// Any other character, backslash included.
    Char(char),
    EOF,
}

/// A blank that separates tokens: space or tab (newline is a token of its
/// own).
pub open spec fn spec_is_blank(c: char) -> bool {
    c == ' ' || c == '\t'
}

#[verifier::when_used_as_spec(spec_is_blank)]
pub fn is_blank(c: char) -> (r: bool)
    ensures
        r == spec_is_blank(c),
{
    c == ' ' || c == '\t'
}

/// A character that can begin a shell operator.
pub open spec fn spec_is_operator(c: char) -> bool {
    c == '|' || c == '&' || c == ';' || c == '<' || c == '>' || c == '(' || c == ')'
}

#[verifier::when_used_as_spec(spec_is_operator)]
pub fn is_operator(c: char) -> (r: bool)
    ensures
        r == spec_is_operator(c),
{
    c == '|' || c == '&' || c == ';' || c == '<' || c == '>' || c == '(' || c == ')'
}

/// An unquoted character that ends a word: a blank, an operator character or
/// a newline.
pub open spec fn spec_ends_word(c: char) -> bool {
    spec_is_blank(c) || spec_is_operator(c) || c == '\n'
}

#[verifier::when_used_as_spec(spec_ends_word)]
pub fn ends_word(c: char) -> (r: bool)
    ensures
        r == spec_ends_word(c),
{
    is_blank(c) || is_operator(c) || c == '\n'
}

pub open spec fn spec_is_digit(c: char) -> bool {
    '0' <= c && c <= '9'
}

#[verifier::when_used_as_spec(spec_is_digit)]
pub fn is_digit(c: char) -> (r: bool)
    ensures
        r == spec_is_digit(c),
{
    '0' <= c && c <= '9'
}

/// Numeric value of a decimal digit.
pub open spec fn spec_digit_val(c: char) -> int {
    c as int - '0' as int
}

/// The first position at or after `i` that does not hold a blank.
pub open spec fn skip_blanks(s: Seq<char>, i: int) -> int
    decreases s.len() - i,
{
    if 0 <= i < s.len() && spec_is_blank(s[i]) {
        skip_blanks(s, i + 1)
    } else {
        i
    }
}

/// The first position at or after `i` that holds a newline, or the end of
/// input; used to step over a `#` comment, whose terminating newline is not
/// part of the comment.
pub open spec fn skip_comment(s: Seq<char>, i: int) -> int
    decreases s.len() - i,
{
    if 0 <= i < s.len() && s[i] != '\n' {
        skip_comment(s, i + 1)
    } else {
        i
    }
}

/// Where the next shell token starts: blanks are skipped, and a `#` comment
/// runs to the end of the line.
pub open spec fn token_start(s: Seq<char>, i: int) -> int {
    let j = skip_blanks(s, i);
    if 0 <= j < s.len() && s[j] == '#' {
        skip_comment(s, j)
    } else {
        j
    }
}

/// The end of the run of digits beginning at `i`.
pub open spec fn digit_run_end(s: Seq<char>, i: int) -> int
    decreases s.len() - i,
{
    if 0 <= i < s.len() && spec_is_digit(s[i]) {
        digit_run_end(s, i + 1)
    } else {
        i
    }
}

/// The numeric value of the digits `s[i..j)`.
pub open spec fn digit_run_val(s: Seq<char>, i: int, j: int) -> int
    decreases j - i,
{
    if i >= j {
        0
    } else {
        digit_run_val(s, i, j - 1) * 10 + spec_digit_val(s[j - 1])
    }
}

/// Does an `IoNumber` token start at `i`: a run of digits immediately
/// followed, with no intervening blank, by a redirection operator character?
pub open spec fn io_number_at(s: Seq<char>, i: int) -> bool {
    0 <= i < s.len() && spec_is_digit(s[i]) && {
        let k = digit_run_end(s, i);
        k < s.len() && (s[k] == '<' || s[k] == '>')
    }
}

/// The shell token that starts at position `i` (no skipping), for every case
/// except `IoNumber`, whose value needs the separate predicate
/// [`shell_token_matches`].  Operators are recognized by longest match.
pub open spec fn shell_token_at(s: Seq<char>, i: int) -> ShellToken {
    if !(0 <= i < s.len()) {
        ShellToken::EOF
    } else {
        let c = s[i];
        if c == '\n' {
            ShellToken::Newline
        } else if c == '&' {
            if i + 1 < s.len() && s[i + 1] == '&' {
                ShellToken::AndIf
            } else {
                ShellToken::And
            }
        } else if c == '|' {
            if i + 1 < s.len() && s[i + 1] == '|' {
                ShellToken::OrIf
            } else {
                ShellToken::Pipe
            }
        } else if c == ';' {
            if i + 1 < s.len() && s[i + 1] == ';' {
                ShellToken::DSemi
            } else if i + 1 < s.len() && s[i + 1] == '&' {
                ShellToken::SemiAnd
            } else {
                ShellToken::SemiColon
            }
        } else if c == '<' {
            if i + 1 < s.len() && s[i + 1] == '<' {
                if i + 2 < s.len() && s[i + 2] == '-' {
                    ShellToken::DLessDash
                } else {
                    ShellToken::DLess
                }
            } else if i + 1 < s.len() && s[i + 1] == '>' {
                ShellToken::LessGreat
            } else if i + 1 < s.len() && s[i + 1] == '&' {
                ShellToken::LessAnd
            } else {
                ShellToken::Less
            }
        } else if c == '>' {
            if i + 1 < s.len() && s[i + 1] == '>' {
                ShellToken::DGreat
            } else if i + 1 < s.len() && s[i + 1] == '|' {
                ShellToken::Clobber
            } else if i + 1 < s.len() && s[i + 1] == '&' {
                ShellToken::GreatAnd
            } else {
                ShellToken::Greater
            }
        } else if c == '(' {
            ShellToken::LParen
        } else if c == ')' {
            ShellToken::RParen
        } else {
            ShellToken::WordStart
        }
    }
}

/// Does token `t` correctly describe the input at position `i`?  For an
/// `IoNumber` the carried value is exact when the digit run's value is at
/// most 9; a longer run is only guaranteed to carry some value above 9 (such
/// a prefix is rejected later as an invalid file descriptor).
pub open spec fn shell_token_matches(s: Seq<char>, i: int, t: ShellToken) -> bool {
    if io_number_at(s, i) {
        let v = digit_run_val(s, i, digit_run_end(s, i));
        &&& t is IoNumber
        &&& v <= 9 ==> t->IoNumber_0 == v
        &&& v > 9 ==> t->IoNumber_0 > 9
    } else {
        t == shell_token_at(s, i)
    }
}

/// The position one past the shell token that starts at `i`; a `WordStart`
/// consumes nothing.
pub open spec fn shell_token_end(s: Seq<char>, i: int) -> int {
    if io_number_at(s, i) {
        digit_run_end(s, i)
    } else {
        match shell_token_at(s, i) {
            ShellToken::EOF => i,
            ShellToken::WordStart => i,
            ShellToken::Newline => i + 1,
            ShellToken::And => i + 1,
            ShellToken::Pipe => i + 1,
            ShellToken::SemiColon => i + 1,
            ShellToken::Less => i + 1,
            ShellToken::Greater => i + 1,
            ShellToken::LParen => i + 1,
            ShellToken::RParen => i + 1,
            ShellToken::DLessDash => i + 3,
            ShellToken::IoNumber(_) => i,
            _ => i + 2,
        }
    }
}

/// The word token that starts at position `i`.
pub open spec fn word_token_at(s: Seq<char>, i: int) -> WordToken {
    if !(0 <= i < s.len()) {
        WordToken::EOF
    } else if s[i] == '\'' {
        WordToken::SingleQuote
    } else if s[i] == '"' {
        WordToken::DoubleQuote
    } else if s[i] == '`' {
        WordToken::Backtick
    } else if s[i] == '$' {
        if i + 1 < s.len() && s[i + 1] == '(' {
            if i + 2 < s.len() && s[i + 2] == '(' {
                WordToken::ArithmeticExpansionStart
            } else {
                WordToken::CommandSubstitutionStart
            }
        } else {
            WordToken::Dollar
        }
    } else {
        WordToken::Char(s[i])
    }
}

/// How many characters the word token starting at `i` occupies.
pub open spec fn word_token_len(s: Seq<char>, i: int) -> int {
    match word_token_at(s, i) {
        WordToken::EOF => 0,
        WordToken::ArithmeticExpansionStart => 3,
        WordToken::CommandSubstitutionStart => 2,
        _ => 1,
    }
}

/// The position one past the line that starts at `i`: just past the first
/// newline at or after `i`, or the end of input if there is none.
pub open spec fn line_end(s: Seq<char>, i: int) -> int
    decreases s.len() - i,
{
    if !(0 <= i < s.len()) {
        i
    } else if s[i] == '\n' {
        i + 1
    } else {
        line_end(s, i + 1)
    }
}

/// The character/line source and both lexer layers, sharing one cursor over
/// the input text.
pub struct Lexer {
    pub chars: Vec<char>,
    pub pos: usize,
}

impl Lexer {
    /// The cursor never points past the end of the input.
    pub open spec fn wf(self) -> bool {
        self.pos <= self.chars@.len()
    }

    pub fn new(source: &str) -> (l: Lexer)
        ensures
            l.chars@ == source@,
            l.pos == 0,
            l.wf(),
    {
        Lexer { chars: chars_of(source), pos: 0 }
    }

    /// Look at the next raw character without consuming it.
    pub fn peek_char(&self) -> (r: Option<char>)
        requires
            self.wf(),
        ensures
            r == (if self.pos < self.chars@.len() {
                Some(self.chars@[self.pos as int])
            } else {
                Option::<char>::None
            }),
    {
        if self.pos < self.chars.len() {
            Some(self.chars[self.pos])
        } else {
            None
        }
    }

    /// Consume and return the next raw character.
    pub fn next_char(&mut self) -> (r: Option<char>)
        requires
            old(self).wf(),
        ensures
            final(self).chars@ == old(self).chars@,
            final(self).wf(),
            old(self).pos < old(self).chars@.len() ==> {
                &&& r == Some(old(self).chars@[old(self).pos as int])
                &&& final(self).pos == old(self).pos + 1
            },
            old(self).pos >= old(self).chars@.len() ==> {
                &&& r is None
                &&& final(self).pos == old(self).pos
            },
    {
        if self.pos < self.chars.len() {
            let c = self.chars[self.pos];
            self.pos = self.pos + 1;
            Some(c)
        } else {
            None
        }
    }

    /// Consume and return the remainder of the current line, including its
    /// terminating newline (if the input ends first, up to the end of
    /// input).  Used only for here-document bodies, which are not tokenized.
    pub fn next_line(&mut self) -> (r: String)
        requires
            old(self).wf(),
        ensures
            final(self).chars@ == old(self).chars@,
            final(self).wf(),
            final(self).pos as int == line_end(old(self).chars@, old(self).pos as int),
            old(self).pos <= final(self).pos,
            r@ == old(self).chars@.subrange(old(self).pos as int, final(self).pos as int),
    {
        let ghost s = self.chars@;
        let ghost p0 = self.pos as int;
        let mut r = String::new();
        proof {
            assert(r@ =~= s.subrange(p0, p0));
        }
        loop
            invariant_except_break
                self.chars@ == s,
                0 <= p0 <= self.pos as int <= s.len(),
                line_end(s, p0) == line_end(s, self.pos as int),
                r@ == s.subrange(p0, self.pos as int),
            ensures
                self.chars@ == s,
                0 <= p0 <= self.pos as int <= s.len(),
                self.pos as int == line_end(s, p0),
                r@ == s.subrange(p0, self.pos as int),
            decreases s.len() - self.pos,
        {
            if self.pos >= self.chars.len() {
                break;
            }
            let c = self.chars[self.pos];
            push_char(&mut r, c);
            self.pos = self.pos + 1;
            proof {
                assert(r@ =~= s.subrange(p0, self.pos as int));
            }
            if c == '\n' {
                break;
            }
        }
        r
    }

    /// Emit the next word-level token and consume exactly its characters.
    pub fn next_word_token(&mut self) -> (t: WordToken)
        requires
            old(self).wf(),
        ensures
            final(self).chars@ == old(self).chars@,
            final(self).wf(),
            t == word_token_at(old(self).chars@, old(self).pos as int),
            final(self).pos as int == old(self).pos + word_token_len(
                old(self).chars@,
                old(self).pos as int,
            ),
    {
        if self.pos >= self.chars.len() {
            return WordToken::EOF;
        }
        let c = self.chars[self.pos];
        if c == '\'' {
            self.pos = self.pos + 1;
            WordToken::SingleQuote
        } else if c == '"' {
            self.pos = self.pos + 1;
            WordToken::DoubleQuote
        } else if c == '`' {
            self.pos = self.pos + 1;
            WordToken::Backtick
        } else if c == '$' {
            if self.pos + 1 < self.chars.len() && self.chars[self.pos + 1] == '(' {
                if self.pos + 2 < self.chars.len() && self.chars[self.pos + 2] == '(' {
                    self.pos = self.pos + 3;
                    WordToken::ArithmeticExpansionStart
                } else {
                    self.pos = self.pos + 2;
                    WordToken::CommandSubstitutionStart
                }
            } else {
                self.pos = self.pos + 1;
                WordToken::Dollar
            }
        } else {
            self.pos = self.pos + 1;
            WordToken::Char(c)
        }
    }

    /// Emit the next shell-level token: skip blanks and `#` comments, then
    /// recognize the token by longest match, consuming its characters (a
    /// `WordStart` consumes nothing beyond the skipped blanks).
    pub fn next_shell_token(&mut self) -> (t: ShellToken)
        requires
            old(self).wf(),
        ensures
            final(self).chars@ == old(self).chars@,
            final(self).wf(),
            shell_token_matches(
                old(self).chars@,
                token_start(old(self).chars@, old(self).pos as int),
                t,
            ),
            final(self).pos as int == shell_token_end(
                old(self).chars@,
                token_start(old(self).chars@, old(self).pos as int),
            ),
            old(self).pos <= final(self).pos,
    {
        let ghost s = self.chars@;
        let ghost p0 = self.pos as int;
        // Skip blanks.
        while self.pos < self.chars.len() && is_blank(self.chars[self.pos])
            invariant
                self.chars@ == s,
                0 <= p0 <= self.pos as int <= s.len(),
                skip_blanks(s, p0) == skip_blanks(s, self.pos as int),
            decreases s.len() - self.pos,
        {
            self.pos = self.pos + 1;
        }
        // Skip a comment, which runs to the end of the line; the newline is
        // the next token.
        if self.pos < self.chars.len() && self.chars[self.pos] == '#' {
            let ghost j0 = self.pos as int;
            while self.pos < self.chars.len() && self.chars[self.pos] != '\n'
                invariant
                    self.chars@ == s,
                    0 <= j0 <= self.pos as int <= s.len(),
                    skip_comment(s, j0) == skip_comment(s, self.pos as int),
                decreases s.len() - self.pos,
            {
                self.pos = self.pos + 1;
            }
        }
        let ghost j = self.pos as int;
        proof {
            assert(j == token_start(s, p0));
        }
        if self.pos >= self.chars.len() {
            return ShellToken::EOF;
        }
        let c = self.chars[self.pos];
        if c == '\n' {
            self.pos = self.pos + 1;
            ShellToken::Newline
        } else if c == '&' {
            if self.pos + 1 < self.chars.len() && self.chars[self.pos + 1] == '&' {
                self.pos = self.pos + 2;
                ShellToken::AndIf
            } else {
                self.pos = self.pos + 1;
                ShellToken::And
            }
        } else if c == '|' {
            if self.pos + 1 < self.chars.len() && self.chars[self.pos + 1] == '|' {
                self.pos = self.pos + 2;
                ShellToken::OrIf
            } else {
                self.pos = self.pos + 1;
                ShellToken::Pipe
            }
        } else if c == ';' {
            if self.pos + 1 < self.chars.len() && self.chars[self.pos + 1] == ';' {
                self.pos = self.pos + 2;
                ShellToken::DSemi
            } else if self.pos + 1 < self.chars.len() && self.chars[self.pos + 1] == '&' {
                self.pos = self.pos + 2;
                ShellToken::SemiAnd
            } else {
                self.pos = self.pos + 1;
                ShellToken::SemiColon
            }
        } else if c == '<' {
            if self.pos + 1 < self.chars.len() && self.chars[self.pos + 1] == '<' {
                if self.pos + 2 < self.chars.len() && self.chars[self.pos + 2] == '-' {
                    self.pos = self.pos + 3;
                    ShellToken::DLessDash
                } else {
                    self.pos = self.pos + 2;
                    ShellToken::DLess
                }
            } else if self.pos + 1 < self.chars.len() && self.chars[self.pos + 1] == '>' {
                self.pos = self.pos + 2;
                ShellToken::LessGreat
            } else if self.pos + 1 < self.chars.len() && self.chars[self.pos + 1] == '&' {
                self.pos = self.pos + 2;
                ShellToken::LessAnd
            } else {
                self.pos = self.pos + 1;
                ShellToken::Less
            }
        } else if c == '>' {
            if self.pos + 1 < self.chars.len() && self.chars[self.pos + 1] == '>' {
                self.pos = self.pos + 2;
                ShellToken::DGreat
            } else if self.pos + 1 < self.chars.len() && self.chars[self.pos + 1] == '|' {
                self.pos = self.pos + 2;
                ShellToken::Clobber
            } else if self.pos + 1 < self.chars.len() && self.chars[self.pos + 1] == '&' {
                self.pos = self.pos + 2;
                ShellToken::GreatAnd
            } else {
                self.pos = self.pos + 1;
                ShellToken::Greater
            }
        } else if c == '(' {
            self.pos = self.pos + 1;
            ShellToken::LParen
        } else if c == ')' {
            self.pos = self.pos + 1;
            ShellToken::RParen
        } else if is_digit(c) {
            // A digit run is an IoNumber only when a redirection operator
            // follows it immediately; otherwise the digits belong to a word.
            let mut k: usize = self.pos;
            let mut n: u32 = 0;
            while k < self.chars.len() && is_digit(self.chars[k])
                invariant
                    self.chars@ == s,
                    0 <= j <= k as int <= s.len(),
                    self.pos as int == j,
                    digit_run_end(s, j) == digit_run_end(s, k as int),
                    n <= 99,
                    digit_run_val(s, j, k as int) <= 9 ==> n == digit_run_val(s, j, k as int),
                    digit_run_val(s, j, k as int) > 9 ==> n > 9,
                    digit_run_val(s, j, k as int) >= 0,
                decreases s.len() - k,
            {
                let d = self.chars[k] as u32 - '0' as u32;
                if n <= 9 {
                    n = n * 10 + d;
                }
                k = k + 1;
            }
            if k < self.chars.len() && (self.chars[k] == '<' || self.chars[k] == '>') {
                self.pos = k;
                ShellToken::IoNumber(n)
            } else {
                ShellToken::WordStart
            }
        } else {
            ShellToken::WordStart
        }
    }
}

/// One of the one-character special parameters `@ * # ? - $ !`.
pub open spec fn spec_is_special_param(c: char) -> bool {
    c == '@' || c == '*' || c == '#' || c == '?' || c == '-' || c == '$' || c == '!'
}

#[verifier::when_used_as_spec(spec_is_special_param)]
pub fn is_special_param(c: char) -> (r: bool)
    ensures
        r == spec_is_special_param(c),
{
    c == '@' || c == '*' || c == '#' || c == '?' || c == '-' || c == '$' || c == '!'
}

/// A character that can begin a variable name.
pub open spec fn spec_is_name_start(c: char) -> bool {
    c == '_' || ('a' <= c && c <= 'z') || ('A' <= c && c <= 'Z')
}

#[verifier::when_used_as_spec(spec_is_name_start)]
pub fn is_name_start(c: char) -> (r: bool)
    ensures
        r == spec_is_name_start(c),
{
    c == '_' || ('a' <= c && c <= 'z') || ('A' <= c && c <= 'Z')
}

/// A character that can continue a variable name.
pub open spec fn spec_is_name_char(c: char) -> bool {
    spec_is_name_start(c) || spec_is_digit(c)
}

#[verifier::when_used_as_spec(spec_is_name_char)]
pub fn is_name_char(c: char) -> (r: bool)
    ensures
        r == spec_is_name_char(c),
{
    is_name_start(c) || is_digit(c)
}

/// The end of the maximal run of name characters beginning at `i`.
pub open spec fn name_run_end(s: Seq<char>, i: int) -> int
    decreases s.len() - i,
{
    if 0 <= i < s.len() && spec_is_name_char(s[i]) {
        name_run_end(s, i + 1)
    } else {
        i
    }
}

pub proof fn lemma_skip_blanks_ge(s: Seq<char>, i: int)
    ensures
        i <= skip_blanks(s, i),
    decreases s.len() - i,
{
    if 0 <= i < s.len() && spec_is_blank(s[i]) {
        lemma_skip_blanks_ge(s, i + 1);
    }
}

pub proof fn lemma_skip_comment_ge(s: Seq<char>, i: int)
    ensures
        i <= skip_comment(s, i),
    decreases s.len() - i,
{
    if 0 <= i < s.len() && s[i] != '\n' {
        lemma_skip_comment_ge(s, i + 1);
    }
}

/// A shell token never starts before the position it is asked for.
pub proof fn lemma_token_start_ge(s: Seq<char>, i: int)
    ensures
        i <= token_start(s, i),
{
    lemma_skip_blanks_ge(s, i);
    let j = skip_blanks(s, i);
    if 0 <= j < s.len() && s[j] == '#' {
        lemma_skip_comment_ge(s, j);
    }
}

/// The first position at or after `i` where `c` occurs, or the end of the
/// input if it does not occur.
pub open spec fn find_char(s: Seq<char>, c: char, i: int) -> int
    decreases s.len() - i,
{
    if 0 <= i < s.len() {
        if s[i] == c {
            i
        } else {
            find_char(s, c, i + 1)
        }
    } else {
        i
    }
}

/// What [`find_char`] returns: the nearest occurrence, with none before it.
pub proof fn lemma_find_char_props(s: Seq<char>, c: char, i: int)
    requires
        0 <= i <= s.len(),
    ensures
        i <= find_char(s, c, i) <= s.len(),
        forall|k: int| i <= k < find_char(s, c, i) ==> s[k] != c,
        find_char(s, c, i) < s.len() ==> s[find_char(s, c, i)] == c,
    decreases s.len() - i,
{
    if i < s.len() && s[i] != c {
        lemma_find_char_props(s, c, i + 1);
    }
}

/// A line always reaches at least one character past its start.
pub proof fn lemma_line_end_ge(s: Seq<char>, i: int)
    ensures
        i <= line_end(s, i),
        0 <= i < s.len() ==> i + 1 <= line_end(s, i),
        0 <= i <= s.len() ==> line_end(s, i) <= s.len(),
    decreases s.len() - i,
{
    if 0 <= i < s.len() && s[i] != '\n' {
        lemma_line_end_ge(s, i + 1);
    }
}

/// A run of digits has a non-negative value.
pub proof fn lemma_digit_run_val_nonneg(s: Seq<char>, i: int, j: int)
    requires
        i <= j,
        forall|k: int| i <= k < j ==> spec_is_digit(#[trigger] s[k]),
    ensures
        digit_run_val(s, i, j) >= 0,
    decreases j - i,
{
    if i < j {
        lemma_digit_run_val_nonneg(s, i, j - 1);
    }
}

/// The value of a digit run never shrinks as the run extends.
pub proof fn lemma_digit_run_val_monotone(s: Seq<char>, i: int, j: int, j2: int)
    requires
        i <= j <= j2,
        forall|k: int| i <= k < j2 ==> spec_is_digit(#[trigger] s[k]),
        digit_run_val(s, i, j) >= 0,
    ensures
        digit_run_val(s, i, j) <= digit_run_val(s, i, j2),
    decreases j2 - j,
{
    if j < j2 {
        lemma_digit_run_val_monotone(s, i, j, j2 - 1);
    }
}

/// Bounds of a digit run, and the fact that it contains only digits.
pub proof fn lemma_digit_run_end_props(s: Seq<char>, i: int)
    ensures
        i <= digit_run_end(s, i),
        0 <= i <= s.len() ==> digit_run_end(s, i) <= s.len(),
        forall|k: int| i <= k < digit_run_end(s, i) ==> spec_is_digit(#[trigger] s[k]),
    decreases s.len() - i,
{
    if 0 <= i < s.len() && spec_is_digit(s[i]) {
        lemma_digit_run_end_props(s, i + 1);
    }
}

} // verus!
