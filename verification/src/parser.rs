//! Recursive-descent parser for the POSIX shell command language.
//!
//! The parser holds one lookahead token from each lexer layer and advances
//! whichever stream the current grammar rule requires.  Command and
//! arithmetic substitutions recurse into the grammar again; the recursion
//! depth is bounded by an explicit counter that fails closed with
//! [`ParseError::LimitExceeded`] instead of growing without bound.
//!
//! On any grammar violation the whole parse is abandoned with a single
//! [`ParseError`]; no partial tree is ever returned.

use crate::ast::{
    ArithmeticExpr, Assignment, Command, CompleteCommand, CompoundCommand, Conjunction,
    IORedirectionKind, LogicalOp, Parameter, ParameterExpansion, Pipeline, Program, Redirection,
    RedirectionKind, SimpleCommand, Word, WordPart,
};
use crate::ast::{
    command_wf, complete_command_wf, conjunction_wf, parameter_expansion_wf, pipeline_wf,
    program_wf, redirection_wf, simple_command_wf, word_part_wf, word_wf,
};
use crate::lexer::{
    digit_run_end, digit_run_val, find_char, io_number_at, shell_token_at, shell_token_end,
    shell_token_matches, spec_digit_val, spec_ends_word, spec_is_digit, token_start, word_token_at,
    word_token_len, Lexer, ShellToken, WordToken,
};
use crate::lexer::{
    ends_word, is_digit, is_name_char, is_name_start, is_special_param, lemma_digit_run_end_props,
    lemma_digit_run_val_monotone, lemma_find_char_props, lemma_line_end_ge, lemma_token_start_ge,
    line_end, name_run_end, spec_is_name_char, spec_is_name_start, spec_is_special_param,
};
use crate::text::push_char;
use vstd::prelude::*;
use vstd::string::StrSliceExecFns;
use vstd::string::StringExecFns;

verus! {

/// The single fatal failure a parse can end with.
#[derive(Debug, Clone, Copy, PartialEq, Eq, Structural)]
pub enum ParseError {
    /// An unexpected token where the grammar required another, at the given
    /// character position of the input.
    SyntaxError { position: usize },
    /// The input ended inside a quoted region.
    UnterminatedQuote,
    /// The input ended before the closing delimiter of a command,
    /// arithmetic or `${...}` substitution.
    UnterminatedSubstitution,
    /// A redirection's digit prefix falls outside 0-9.
    InvalidFileDescriptor,
    /// A malformed `$name` / `${...}` parameter token.
    InvalidParameterName,
    /// The nesting bound for substitutions, or an internal iteration bound,
    /// was exceeded.
    LimitExceeded,
}

/// How deeply command, arithmetic and parameter substitutions may nest.
pub const MAX_SUBSTITUTION_DEPTH: usize = 100;

/// Parser state: the shared cursor and one lookahead token per lexer layer.
pub struct Parser {
    pub lexer: Lexer,
    pub shell_lookahead: ShellToken,
    pub word_lookahead: WordToken,
    /// Remaining allowance of nested substitutions.
    pub depth: usize,
    /// Where the current word-level lookahead token started.
    pub tok_start: Ghost<int>,
}

/// The word-level lookahead slot agrees with the cursor: the lookahead is
/// the token that starts at `tok_start` and the cursor sits just past it.
pub open spec fn word_synced(p: Parser) -> bool {
    &&& 0 <= p.tok_start@ <= p.lexer.chars@.len()
    &&& p.word_lookahead == word_token_at(p.lexer.chars@, p.tok_start@)
    &&& p.lexer.pos as int == p.tok_start@ + word_token_len(p.lexer.chars@, p.tok_start@)
}

impl Parser {
    pub open spec fn wf(self) -> bool {
        self.lexer.wf()
    }

    /// Shorthand for the input text.
    pub open spec fn src(self) -> Seq<char> {
        self.lexer.chars@
    }

    /// A fresh parser over `source`, with both lookahead slots empty.
    pub fn new(source: &str) -> (p: Parser)
        ensures
            p.wf(),
            p.src() == source@,
            p.lexer.pos == 0,
            p.shell_lookahead == ShellToken::EOF,
            p.word_lookahead == WordToken::EOF,
            p.depth == MAX_SUBSTITUTION_DEPTH,
    {
        Parser {
            lexer: Lexer::new(source),
            shell_lookahead: ShellToken::EOF,
            word_lookahead: WordToken::EOF,
            depth: MAX_SUBSTITUTION_DEPTH,
            tok_start: Ghost(0),
        }
    }

    /// A fresh parser over already-split characters, used when a
    /// substitution re-parses embedded text with a smaller depth allowance.
    fn with_chars(chars: Vec<char>, depth: usize) -> (p: Parser)
        ensures
            p.wf(),
            p.src() == chars@,
            p.lexer.pos == 0,
            p.shell_lookahead == ShellToken::EOF,
            p.word_lookahead == WordToken::EOF,
            p.depth == depth,
    {
        Parser {
            lexer: Lexer { chars, pos: 0 },
            shell_lookahead: ShellToken::EOF,
            word_lookahead: WordToken::EOF,
            depth,
            tok_start: Ghost(0),
        }
    }

    /// Refill the word-level lookahead slot with the next word token.
    pub fn advance_word(&mut self)
        requires
            old(self).wf(),
        ensures
            final(self).wf(),
            final(self).src() == old(self).src(),
            final(self).shell_lookahead == old(self).shell_lookahead,
            final(self).depth == old(self).depth,
            word_synced(*final(self)),
            final(self).tok_start@ == old(self).lexer.pos as int,
    {
        let ghost p = self.lexer.pos as int;
        let t = self.lexer.next_word_token();
        self.word_lookahead = t;
        self.tok_start = Ghost(p);
    }

    /// Refill the shell-level lookahead slot with the next shell token.
    pub fn advance_shell(&mut self)
        requires
            old(self).wf(),
        ensures
            final(self).wf(),
            final(self).src() == old(self).src(),
            final(self).word_lookahead == old(self).word_lookahead,
            final(self).tok_start == old(self).tok_start,
            final(self).depth == old(self).depth,
            shell_token_matches(
                old(self).src(),
                token_start(old(self).src(), old(self).lexer.pos as int),
                final(self).shell_lookahead,
            ),
            final(self).lexer.pos as int == shell_token_end(
                old(self).src(),
                token_start(old(self).src(), old(self).lexer.pos as int),
            ),
            old(self).lexer.pos <= final(self).lexer.pos,
    {
        let t = self.lexer.next_shell_token();
        self.shell_lookahead = t;
    }

    /// Skip any run of newline tokens.
    pub fn skip_linebreak(&mut self)
        requires
            old(self).wf(),
        ensures
            final(self).wf(),
            final(self).src() == old(self).src(),
            final(self).word_lookahead == old(self).word_lookahead,
            final(self).tok_start == old(self).tok_start,
            final(self).depth == old(self).depth,
            final(self).shell_lookahead != ShellToken::Newline,
            old(self).lexer.pos <= final(self).lexer.pos,
            old(self).shell_lookahead != ShellToken::Newline ==> *final(self) == *old(self),
    {
        while self.shell_lookahead == ShellToken::Newline
            invariant
                self.wf(),
                self.src() == old(self).src(),
                self.word_lookahead == old(self).word_lookahead,
                self.tok_start == old(self).tok_start,
                self.depth == old(self).depth,
                old(self).lexer.pos <= self.lexer.pos,
                old(self).shell_lookahead != ShellToken::Newline ==> *self == *old(self),
            decreases
                    self.src().len() - self.lexer.pos,
                    (if self.shell_lookahead == ShellToken::Newline {
                        1int
                    } else {
                        0int
                    }),
        {
            let ghost pre = self.lexer.pos as int;
            self.advance_shell();
            proof {
                // A fresh Newline token always consumes its newline
                // character, so the cursor moved strictly forward.
                lemma_token_start_ge(self.src(), pre);
                if self.shell_lookahead == ShellToken::Newline {
                    assert(self.lexer.pos as int == token_start(self.src(), pre) + 1);
                }
            }
        }
    }

    /// If the shell lookahead is one of `tokens`, consume it and return it.
    pub fn match_shell_alterntives(&mut self, tokens: &[ShellToken]) -> (r: Option<ShellToken>)
        requires
            old(self).wf(),
        ensures
            final(self).wf(),
            final(self).src() == old(self).src(),
            final(self).word_lookahead == old(self).word_lookahead,
            final(self).tok_start == old(self).tok_start,
            final(self).depth == old(self).depth,
            old(self).lexer.pos <= final(self).lexer.pos,
            match r {
                Option::Some(t) => {
                    &&& t == old(self).shell_lookahead
                    &&& exists|i: int| 0 <= i < tokens@.len() && tokens@[i] == t
                },
                Option::None => {
                    &&& *final(self) == *old(self)
                    &&& forall|i: int|
                        0 <= i < tokens@.len() ==> tokens@[i] != old(self).shell_lookahead
                },
            },
    {
        let mut i: usize = 0;
        while i < tokens.len()
            invariant
                self.wf(),
                i <= tokens@.len(),
                forall|k: int| 0 <= k < i ==> tokens@[k] != self.shell_lookahead,
                *self == *old(self),
            decreases tokens@.len() - i,
        {
            if tokens[i] == self.shell_lookahead {
                let t = self.shell_lookahead;
                self.advance_shell();
                return Some(t);
            }
            i = i + 1;
        }
        None
    }

    /// Decode one `Parameter` from the word-token stream.  In the bare form
    /// (`only_consider_first_digit`) a positional parameter is a single
    /// digit; in the braced form a digit run of any length is accepted.
    ///
    /// The contract pins the result for every input: a special character or
    /// digit at the lookahead yields exactly that parameter, an identifier
    /// start yields the maximal name run, and anything else is rejected as
    /// an invalid parameter name.
    pub fn parse_parameter(&mut self, only_consider_first_digit: bool) -> (r: Result<
        Parameter,
        ParseError,
    >)
        requires
            old(self).wf(),
            word_synced(*old(self)),
        ensures
            final(self).wf(),
            word_synced(*final(self)),
            final(self).src() == old(self).src(),
            final(self).shell_lookahead == old(self).shell_lookahead,
            final(self).depth == old(self).depth,
            old(self).tok_start@ <= final(self).tok_start@,
            old(self).lexer.pos <= final(self).lexer.pos,
            ({
                let s = old(self).src();
                let i = old(self).tok_start@;
                match word_token_at(s, i) {
                    WordToken::Char(c) => {
                        if spec_is_special_param(c) {
                            &&& r == Ok::<Parameter, ParseError>(Parameter::Special(c))
                            &&& final(self).tok_start@ == i + 1
                        } else if spec_is_digit(c) && only_consider_first_digit {
                            &&& r == Ok::<Parameter, ParseError>(
                                Parameter::Number(spec_digit_val(c) as u32),
                            )
                            &&& final(self).tok_start@ == i + 1
                        } else if spec_is_digit(c) {
                            let e = digit_run_end(s, i);
                            let v = digit_run_val(s, i, e);
                            &&& v <= u32::MAX ==> {
                                &&& r == Ok::<Parameter, ParseError>(Parameter::Number(v as u32))
                                &&& final(self).tok_start@ == e
                            }
                            &&& v > u32::MAX ==> r == Err::<Parameter, ParseError>(
                                ParseError::InvalidParameterName,
                            )
                        } else if spec_is_name_start(c) {
                            let e = name_run_end(s, i);
                            &&& r is Ok
                            &&& r->Ok_0 is Name
                            &&& r->Ok_0->Name_0@ == s.subrange(i, e)
                            &&& final(self).tok_start@ == e
                        } else {
                            r == Err::<Parameter, ParseError>(ParseError::InvalidParameterName)
                        }
                    },
                    _ => r == Err::<Parameter, ParseError>(ParseError::InvalidParameterName),
                }
            }),
    {
        let ghost s = self.src();
        let ghost i0 = self.tok_start@;
        match self.word_lookahead {
            WordToken::Char(c) => {
                if is_special_param(c) {
                    self.advance_word();
                    Ok(Parameter::Special(c))
                } else if is_digit(c) {
                    if only_consider_first_digit {
                        self.advance_word();
                        Ok(Parameter::Number(c as u32 - '0' as u32))
                    } else {
                        let mut n: u32 = c as u32 - '0' as u32;
                        self.advance_word();
                        proof {
                            assert(s[i0] == c);
                            assert(digit_run_val(s, i0, i0) == 0);
                            assert(digit_run_val(s, i0, i0 + 1) == spec_digit_val(c));
                        }
                        loop
                            invariant_except_break
                                !only_consider_first_digit,
                                self.wf(),
                                word_synced(*self),
                                self.src() == s,
                                s == old(self).src(),
                                self.shell_lookahead == old(self).shell_lookahead,
                                self.depth == old(self).depth,
                                0 <= i0 < self.tok_start@ <= s.len(),
                                old(self).lexer.pos <= self.lexer.pos,
                                old(self).tok_start@ == i0,
                                digit_run_end(s, i0) == digit_run_end(s, self.tok_start@),
                                n == digit_run_val(s, i0, self.tok_start@),
                                forall|k: int|
                                    i0 <= k < self.tok_start@ ==> spec_is_digit(#[trigger] s[k]),
                            ensures
                                self.wf(),
                                word_synced(*self),
                                self.src() == s,
                                s == old(self).src(),
                                self.shell_lookahead == old(self).shell_lookahead,
                                self.depth == old(self).depth,
                                old(self).lexer.pos <= self.lexer.pos,
                                old(self).tok_start@ == i0,
                                0 <= i0 < self.tok_start@,
                                self.tok_start@ == digit_run_end(s, i0),
                                n == digit_run_val(s, i0, digit_run_end(s, i0)),
                            decreases s.len() - self.tok_start@,
                        {
                            let la = self.word_lookahead;
                            match la {
                                WordToken::Char(d) => {
                                    if is_digit(d) {
                                        let dv: u32 = d as u32 - '0' as u32;
                                        let ghost t_old = self.tok_start@;
                                        proof {
                                            assert(0 <= t_old < s.len());
                                            assert(s[t_old] == d);
                                            assert(digit_run_end(s, t_old) == digit_run_end(
                                                s,
                                                t_old + 1,
                                            ));
                                            lemma_digit_run_end_props(s, t_old + 1);
                                            assert(digit_run_val(s, i0, t_old + 1)
                                                == digit_run_val(s, i0, t_old) * 10
                                                + spec_digit_val(d));
                                        }
                                        if n > (u32::MAX - dv) / 10 {
                                            proof {
                                                assert(digit_run_val(s, i0, t_old + 1)
                                                    > u32::MAX);
                                                lemma_digit_run_val_monotone(
                                                    s,
                                                    i0,
                                                    t_old + 1,
                                                    digit_run_end(s, i0),
                                                );
                                            }
                                            return Err(ParseError::InvalidParameterName);
                                        }
                                        n = n * 10 + dv;
                                        self.advance_word();
                                    } else {
                                        proof {
                                            assert(digit_run_end(s, self.tok_start@)
                                                == self.tok_start@);
                                        }
                                        break;
                                    }
                                },
                                _ => {
                                    proof {
                                        assert(digit_run_end(s, self.tok_start@)
                                            == self.tok_start@);
                                    }
                                    break;
                                },
                            }
                        }
                        Ok(Parameter::Number(n))
                    }
                } else if is_name_start(c) {
                    let mut name = String::new();
                    push_char(&mut name, c);
                    self.advance_word();
                    proof {
                        assert(name@ =~= s.subrange(i0, i0 + 1));
                    }
                    loop
                        invariant_except_break
                            self.wf(),
                            word_synced(*self),
                            self.src() == s,
                            s == old(self).src(),
                            self.shell_lookahead == old(self).shell_lookahead,
                            self.depth == old(self).depth,
                            0 <= i0 < self.tok_start@ <= s.len(),
                            old(self).lexer.pos <= self.lexer.pos,
                            old(self).tok_start@ == i0,
                            name_run_end(s, i0) == name_run_end(s, self.tok_start@),
                            name@ == s.subrange(i0, self.tok_start@),
                        ensures
                            self.wf(),
                            word_synced(*self),
                            self.src() == s,
                            s == old(self).src(),
                            self.shell_lookahead == old(self).shell_lookahead,
                            self.depth == old(self).depth,
                            old(self).lexer.pos <= self.lexer.pos,
                            old(self).tok_start@ == i0,
                            self.tok_start@ == name_run_end(s, i0),
                            name@ == s.subrange(i0, name_run_end(s, i0)),
                            0 <= i0 < self.tok_start@,
                        decreases s.len() - self.tok_start@,
                    {
                        let la = self.word_lookahead;
                        match la {
                            WordToken::Char(d) => {
                                if is_name_char(d) {
                                    let ghost t_old = self.tok_start@;
                                    push_char(&mut name, d);
                                    self.advance_word();
                                    proof {
                                        assert(0 <= t_old < s.len());
                                        assert(s[t_old] == d);
                                        assert(self.tok_start@ == t_old + 1);
                                        assert(name@ =~= s.subrange(i0, self.tok_start@));
                                    }
                                } else {
                                    proof {
                                        assert(name_run_end(s, self.tok_start@)
                                            == self.tok_start@);
                                    }
                                    break;
                                }
                            },
                            _ => {
                                proof {
                                    assert(name_run_end(s, self.tok_start@) == self.tok_start@);
                                }
                                break;
                            },
                        }
                    }
                    Ok(Parameter::Name(name))
                } else {
                    Err(ParseError::InvalidParameterName)
                }
            },
            _ => Err(ParseError::InvalidParameterName),
        }
    }

    /// Parse the operand word of a braced expansion form, terminated by the
    /// closing `}`, which is consumed.  An absent operand (the brace follows
    /// immediately) is `None`, distinct from an empty-but-present word.
    fn parse_operand_word(&mut self) -> (r: Result<Option<Word>, ParseError>)
        requires
            old(self).wf(),
            word_synced(*old(self)),
        ensures
            final(self).wf(),
            final(self).src() == old(self).src(),
            final(self).depth == old(self).depth,
            (r is Ok ==> word_synced(*final(self))),
            (r is Ok ==> old(self).tok_start@ <= final(self).tok_start@),
            old(self).tok_start@ <= final(self).lexer.pos as int,
            (r matches Ok(Some(w)) ==> word_wf(w)),
            (operand_at(old(self).src(), old(self).tok_start@, '}') ==> {
                &&& r is Ok
                &&& operand_matches(r->Ok_0, old(self).src(), old(self).tok_start@)
            }),
        decreases self.depth, 1int,
    {
        let w = match self.parse_word_until(WordToken::Char('}'), false) {
            Ok(w) => w,
            Err(e) => return Err(e),
        };
        if self.word_lookahead == WordToken::Char('}') {
            self.advance_word();
            Ok(w)
        } else if self.word_lookahead == WordToken::EOF {
            Err(ParseError::UnterminatedSubstitution)
        } else {
            Err(ParseError::InvalidParameterName)
        }
    }

    /// Decode the `$name` / `${...}` micro-grammar, entered with the `$`
    /// trigger in the lookahead slot.  For the bare form the contract pins
    /// the decoded parameter exactly; the braced forms are additionally
    /// exercised by the test suite.
    pub fn parse_parameter_expansion(&mut self) -> (r: Result<ParameterExpansion, ParseError>)
        requires
            old(self).wf(),
            word_synced(*old(self)),
            old(self).word_lookahead == WordToken::Dollar,
        ensures
            final(self).wf(),
            final(self).src() == old(self).src(),
            final(self).depth == old(self).depth,
            (r is Ok ==> word_synced(*final(self))),
            (r is Ok ==> old(self).lexer.pos <= final(self).tok_start@),
            old(self).lexer.pos <= final(self).lexer.pos,
            (r matches Ok(pe) ==> parameter_expansion_wf(pe)),
            ({
                let s = old(self).src();
                let i = old(self).tok_start@;
                let t1 = word_token_at(s, i + 1);
                &&& (t1 matches WordToken::Char(c) ==> c != '{' ==> {
                    if spec_is_special_param(c) {
                        r == Ok::<ParameterExpansion, ParseError>(
                            ParameterExpansion::Simple(Parameter::Special(c)),
                        ) && final(self).tok_start@ == i + 2
                    } else if spec_is_digit(c) {
                        r == Ok::<ParameterExpansion, ParseError>(
                            ParameterExpansion::Simple(Parameter::Number(spec_digit_val(c) as u32)),
                        ) && final(self).tok_start@ == i + 2
                    } else if spec_is_name_start(c) {
                        &&& r is Ok
                        &&& r->Ok_0 is Simple
                        &&& r->Ok_0->Simple_0 is Name
                        &&& r->Ok_0->Simple_0->Name_0@ == s.subrange(
                            i + 1,
                            name_run_end(s, i + 1),
                        )
                    } else {
                        r == Err::<ParameterExpansion, ParseError>(ParseError::InvalidParameterName)
                    }
                })
                &&& (!(t1 matches WordToken::Char(_)) ==> r == Err::<
                    ParameterExpansion,
                    ParseError,
                >(ParseError::InvalidParameterName))
                &&& (t1 == WordToken::Char('{') ==> {
                    &&& (word_token_at(s, i + 2) == WordToken::Char('#') ==> (r matches Ok(pe)
                        ==> pe is StrLen))
                    &&& (word_token_at(s, i + 2) matches WordToken::Char(c2) ==> (c2 != '#'
                        && spec_is_name_start(c2)) ==> {
                        let pe_end = name_run_end(s, i + 2);
                        let t2 = word_token_at(s, pe_end);
                        let t3 = word_token_at(s, pe_end + 1);
                        &&& (t2 == WordToken::Char('}') ==> {
                            &&& r is Ok
                            &&& r->Ok_0 is Simple
                            &&& r->Ok_0->Simple_0 is Name
                            &&& r->Ok_0->Simple_0->Name_0@ == s.subrange(i + 2, pe_end)
                        })
                        &&& (t2 == WordToken::Char('%') ==> {
                            &&& (t3 == WordToken::Char('%') ==> {
                                &&& (r matches Ok(pe) ==> pe is RemoveLargestSuffix)
                                &&& (operand_at(s, pe_end + 2, '}') ==> (r matches Ok(pe) && (pe
                                    matches ParameterExpansion::RemoveLargestSuffix(p, w)
                                    && pinned_param_operand(p, w, s, i + 2, pe_end, pe_end + 2))))
                            })
                            &&& (t3 != WordToken::Char('%') ==> {
                                &&& (r matches Ok(pe) ==> pe is RemoveSmallestSuffix)
                                &&& (operand_at(s, pe_end + 1, '}') ==> (r matches Ok(pe) && (pe
                                    matches ParameterExpansion::RemoveSmallestSuffix(p, w)
                                    && pinned_param_operand(p, w, s, i + 2, pe_end, pe_end + 1))))
                            })
                        })
                        &&& (t2 == WordToken::Char('#') ==> {
                            &&& (t3 == WordToken::Char('#') ==> {
                                &&& (r matches Ok(pe) ==> pe is RemoveLargestPrefix)
                                &&& (operand_at(s, pe_end + 2, '}') ==> (r matches Ok(pe) && (pe
                                    matches ParameterExpansion::RemoveLargestPrefix(p, w)
                                    && pinned_param_operand(p, w, s, i + 2, pe_end, pe_end + 2))))
                            })
                            &&& (t3 != WordToken::Char('#') ==> {
                                &&& (r matches Ok(pe) ==> pe is RemoveSmallestPrefix)
                                &&& (operand_at(s, pe_end + 1, '}') ==> (r matches Ok(pe) && (pe
                                    matches ParameterExpansion::RemoveSmallestPrefix(p, w)
                                    && pinned_param_operand(p, w, s, i + 2, pe_end, pe_end + 1))))
                            })
                        })
                        &&& (t2 == WordToken::Char(':') ==> {
                            &&& (t3 == WordToken::Char('-') ==> {
                                &&& (r matches Ok(pe) ==> pe is NullUnsetUseDefault)
                                &&& (operand_at(s, pe_end + 2, '}') ==> (r matches Ok(pe) && (pe
                                    matches ParameterExpansion::NullUnsetUseDefault(p, w)
                                    && pinned_param_operand(p, w, s, i + 2, pe_end, pe_end + 2))))
                            })
                            &&& (t3 == WordToken::Char('=') ==> {
                                &&& (r matches Ok(pe) ==> pe is NullUnsetAssignDefault)
                                &&& (operand_at(s, pe_end + 2, '}') ==> (r matches Ok(pe) && (pe
                                    matches ParameterExpansion::NullUnsetAssignDefault(p, w)
                                    && pinned_param_operand(p, w, s, i + 2, pe_end, pe_end + 2))))
                            })
                            &&& (t3 == WordToken::Char('?') ==> {
                                &&& (r matches Ok(pe) ==> pe is NullUnsetError)
                                &&& (operand_at(s, pe_end + 2, '}') ==> (r matches Ok(pe) && (pe
                                    matches ParameterExpansion::NullUnsetError(p, w)
                                    && pinned_param_operand(p, w, s, i + 2, pe_end, pe_end + 2))))
                            })
                            &&& (t3 == WordToken::Char('+') ==> {
                                &&& (r matches Ok(pe) ==> pe is SetUseAlternative)
                                &&& (operand_at(s, pe_end + 2, '}') ==> (r matches Ok(pe) && (pe
                                    matches ParameterExpansion::SetUseAlternative(p, w)
                                    && pinned_param_operand(p, w, s, i + 2, pe_end, pe_end + 2))))
                            })
                        })
                        &&& (t2 == WordToken::Char('-') ==> {
                            &&& (r matches Ok(pe) ==> pe is UnsetUseDefault)
                            &&& (operand_at(s, pe_end + 1, '}') ==> (r matches Ok(pe) && (pe
                                matches ParameterExpansion::UnsetUseDefault(p, w)
                                && pinned_param_operand(p, w, s, i + 2, pe_end, pe_end + 1))))
                        })
                        &&& (t2 == WordToken::Char('=') ==> {
                            &&& (r matches Ok(pe) ==> pe is UnsetAssignDefault)
                            &&& (operand_at(s, pe_end + 1, '}') ==> (r matches Ok(pe) && (pe
                                matches ParameterExpansion::UnsetAssignDefault(p, w)
                                && pinned_param_operand(p, w, s, i + 2, pe_end, pe_end + 1))))
                        })
                        &&& (t2 == WordToken::Char('?') ==> {
                            &&& (r matches Ok(pe) ==> pe is UnsetError)
                            &&& (operand_at(s, pe_end + 1, '}') ==> (r matches Ok(pe) && (pe
                                matches ParameterExpansion::UnsetError(p, w)
                                && pinned_param_operand(p, w, s, i + 2, pe_end, pe_end + 1))))
                        })
                        &&& (t2 == WordToken::Char('+') ==> {
                            &&& (r matches Ok(pe) ==> pe is SetNullUseAlternative)
                            &&& (operand_at(s, pe_end + 1, '}') ==> (r matches Ok(pe) && (pe
                                matches ParameterExpansion::SetNullUseAlternative(p, w)
                                && pinned_param_operand(p, w, s, i + 2, pe_end, pe_end + 1))))
                        })
                    })
                    &&& (word_token_at(s, i + 2) matches WordToken::Char(c2) ==> (spec_is_digit(c2)
                        ==> {
                        let de = digit_run_end(s, i + 2);
                        let v = digit_run_val(s, i + 2, de);
                        (v <= u32::MAX && word_token_at(s, de) == WordToken::Char('}')) ==> r
                            == Ok::<ParameterExpansion, ParseError>(
                            ParameterExpansion::Simple(Parameter::Number(v as u32)),
                        )
                    }))
                    &&& (word_token_at(s, i + 2) == WordToken::Char('#') ==> (word_token_at(
                        s,
                        i + 3,
                    ) matches WordToken::Char(c3) ==> ((c3 != '#' && spec_is_name_start(c3)
                        && word_token_at(s, name_run_end(s, i + 3)) == WordToken::Char('}')) ==> {
                        &&& r is Ok
                        &&& r->Ok_0 is StrLen
                        &&& r->Ok_0->StrLen_0 is Name
                        &&& r->Ok_0->StrLen_0->Name_0@ == s.subrange(i + 3, name_run_end(s, i + 3))
                    })))
                })
            }),
        decreases self.depth, 2int,
    {
        // Step over the `$` trigger.
        self.advance_word();
        if self.word_lookahead == WordToken::Char('{') {
            self.advance_word();
            if self.word_lookahead == WordToken::Char('#') {
                // `${#param}`: string length.
                self.advance_word();
                let parameter = match self.parse_parameter(false) {
                    Ok(p) => p,
                    Err(e) => return Err(e),
                };
                if self.word_lookahead == WordToken::Char('}') {
                    self.advance_word();
                    return Ok(ParameterExpansion::StrLen(parameter));
                } else {
                    return Err(ParseError::InvalidParameterName);
                }
            }
            let parameter = match self.parse_parameter(false) {
                Ok(p) => p,
                Err(e) => return Err(e),
            };
            if self.word_lookahead == WordToken::Char('}') {
                // Immediate `}` with no operator.
                self.advance_word();
                return Ok(ParameterExpansion::Simple(parameter));
            }
            if self.word_lookahead == WordToken::Char('%') {
                self.advance_word();
                if self.word_lookahead == WordToken::Char('%') {
                    self.advance_word();
                    let word = match self.parse_operand_word() {
                        Ok(w) => w,
                        Err(e) => return Err(e),
                    };
                    return Ok(ParameterExpansion::RemoveLargestSuffix(parameter, word));
                } else {
                    let word = match self.parse_operand_word() {
                        Ok(w) => w,
                        Err(e) => return Err(e),
                    };
                    return Ok(ParameterExpansion::RemoveSmallestSuffix(parameter, word));
                }
            }
            if self.word_lookahead == WordToken::Char('#') {
                self.advance_word();
                if self.word_lookahead == WordToken::Char('#') {
                    self.advance_word();
                    let word = match self.parse_operand_word() {
                        Ok(w) => w,
                        Err(e) => return Err(e),
                    };
                    return Ok(ParameterExpansion::RemoveLargestPrefix(parameter, word));
                } else {
                    let word = match self.parse_operand_word() {
                        Ok(w) => w,
                        Err(e) => return Err(e),
                    };
                    return Ok(ParameterExpansion::RemoveSmallestPrefix(parameter, word));
                }
            }
            if self.word_lookahead == WordToken::Char(':') {
                // The unset-or-empty family.
                self.advance_word();
                let operation = self.word_lookahead;
                if operation == WordToken::Char('-') || operation == WordToken::Char('=')
                    || operation == WordToken::Char('?') || operation == WordToken::Char('+') {
                    self.advance_word();
                    let word = match self.parse_operand_word() {
                        Ok(w) => w,
                        Err(e) => return Err(e),
                    };
                    if operation == WordToken::Char('-') {
                        Ok(ParameterExpansion::NullUnsetUseDefault(parameter, word))
                    } else if operation == WordToken::Char('=') {
                        Ok(ParameterExpansion::NullUnsetAssignDefault(parameter, word))
                    } else if operation == WordToken::Char('?') {
                        Ok(ParameterExpansion::NullUnsetError(parameter, word))
                    } else {
                        Ok(ParameterExpansion::SetUseAlternative(parameter, word))
                    }
                } else {
                    Err(ParseError::InvalidParameterName)
                }
            } else {
                // The unset-only family.
                let operation = self.word_lookahead;
                if operation == WordToken::Char('-') || operation == WordToken::Char('=')
                    || operation == WordToken::Char('?') || operation == WordToken::Char('+') {
                    self.advance_word();
                    let word = match self.parse_operand_word() {
                        Ok(w) => w,
                        Err(e) => return Err(e),
                    };
                    if operation == WordToken::Char('-') {
                        Ok(ParameterExpansion::UnsetUseDefault(parameter, word))
                    } else if operation == WordToken::Char('=') {
                        Ok(ParameterExpansion::UnsetAssignDefault(parameter, word))
                    } else if operation == WordToken::Char('?') {
                        Ok(ParameterExpansion::UnsetError(parameter, word))
                    } else {
                        Ok(ParameterExpansion::SetNullUseAlternative(parameter, word))
                    }
                } else {
                    Err(ParseError::InvalidParameterName)
                }
            }
        } else {
            let p = match self.parse_parameter(true) {
                Ok(p) => p,
                Err(e) => return Err(e),
            };
            Ok(ParameterExpansion::Simple(p))
        }
    }

    /// Assemble one word from the word-token stream, stopping at `end`
    /// (honored only outside double quotes), at an unquoted blank, operator
    /// or newline character, or at the end of input.
    ///
    /// Two families of inputs are pinned exactly by the contract: plain text
    /// (no quotes, no `$`, no backtick) parses to a single literal equal to
    /// the text, and a fully single-quoted input parses to a single literal
    /// that keeps both quote characters.  An unterminated single quote is
    /// rejected with `UnterminatedQuote`.
    pub fn parse_word_until(&mut self, end: WordToken, advance_first: bool) -> (r: Result<
        Option<Word>,
        ParseError,
    >)
        requires
            old(self).wf(),
            !advance_first ==> word_synced(*old(self)),
            end == WordToken::EOF || end matches WordToken::Char(_),
        ensures
            final(self).wf(),
            final(self).src() == old(self).src(),
            final(self).depth == old(self).depth,
            (r matches Ok(Some(w)) ==> word_wf(w)),
            ({
                let s = old(self).src();
                let w0 = if advance_first {
                    old(self).lexer.pos as int
                } else {
                    old(self).tok_start@
                };
                &&& (r is Ok ==> w0 <= final(self).tok_start@)
                &&& w0 <= final(self).lexer.pos as int
                &&& (end == WordToken::EOF && w0 < s.len() && all_plain(s, w0) ==> (r matches Ok(
                    Some(w),
                ) && single_literal_word(w, s.subrange(w0, s.len() as int))))
                &&& (end == WordToken::EOF && 0 <= w0 < s.len() && s[w0] == '\'' && find_char(
                    s,
                    '\'',
                    w0 + 1,
                ) == s.len() - 1 ==> (r matches Ok(Some(w)) && single_literal_word(
                    w,
                    s.subrange(w0, s.len() as int),
                )))
                &&& (0 <= w0 < s.len() && s[w0] == '\'' && find_char(s, '\'', w0 + 1) >= s.len()
                    ==> r == Err::<Option<Word>, ParseError>(ParseError::UnterminatedQuote))
                &&& (end == WordToken::EOF && plain_word_at(s, w0) ==> {
                    let q = plain_run(s, w0, '\n');
                    &&& (r matches Ok(Some(w)) && single_literal_word(w, s.subrange(w0, q)))
                    &&& final(self).tok_start@ == q
                    &&& final(self).lexer.pos as int == q
                })
                &&& (end matches WordToken::Char(e) ==> (operand_at(s, w0, e) ==> {
                    let q = plain_run(s, w0, e);
                    &&& (q == w0 ==> r == Ok::<Option<Word>, ParseError>(None))
                    &&& (q > w0 ==> (r matches Ok(Some(w)) && single_literal_word(
                        w,
                        s.subrange(w0, q),
                    )))
                    &&& final(self).tok_start@ == q
                    &&& final(self).word_lookahead == end
                    &&& final(self).lexer.pos as int == q + 1
                }))
                &&& (end == WordToken::EOF && dquoted_at(s, w0) ==> (r matches Ok(Some(w))
                    && single_literal_word(w, s.subrange(w0, s.len() as int))))
                &&& (dquote_open_at(s, w0) ==> r == Err::<Option<Word>, ParseError>(
                    ParseError::UnterminatedQuote,
                ))
                &&& (r matches Ok(Some(w)) ==> forall|k: int|
                    0 <= k < w.parts@.len() ==> ((#[trigger] w.parts@[k]) is Literal
                        ==> w.parts@[k]->Literal_0@.len() > 0))
                &&& (advance_first && old(self).depth >= 1 && open_subst_at(s, w0) ==> r == Err::<
                    Option<Word>,
                    ParseError,
                >(ParseError::UnterminatedSubstitution))
                &&& (advance_first && end == WordToken::EOF && old(self).depth >= 1
                    && digit_expansion_word_at(s, w0) ==> {
                    let d = word_token_at(s, w0 + 1)->Char_0;
                    let q = plain_run(s, w0 + 2, '\n');
                    &&& (r matches Ok(Some(w)) && {
                        &&& w.parts@[0] == WordPart::ParameterExpansion(
                            ParameterExpansion::Simple(Parameter::Number(spec_digit_val(d) as u32)),
                        )
                        &&& (q == w0 + 2 ==> w.parts@.len() == 1)
                        &&& (q > w0 + 2 ==> w.parts@.len() == 2 && w.parts@[1] is Literal
                            && w.parts@[1]->Literal_0@ == s.subrange(w0 + 2, q))
                    })
                })
            }),
        decreases self.depth, 0int,
    {
        let ghost s = self.src();
        let ghost d0 = self.depth;
        let ghost w0: int = if advance_first {
            self.lexer.pos as int
        } else {
            self.tok_start@
        };
        if advance_first {
            self.advance_word();
        }
        let ghost premise1 = end == WordToken::EOF && w0 < s.len() && all_plain(s, w0);
        let ghost premise2 = end == WordToken::EOF && 0 <= w0 < s.len() && s[w0] == '\''
            && find_char(s, '\'', w0 + 1) == s.len() - 1;
        let ghost premise_u = 0 <= w0 < s.len() && s[w0] == '\'' && find_char(s, '\'', w0 + 1)
            >= s.len();
        let ghost premise_r = end == WordToken::EOF && plain_word_at(s, w0);
        let ghost premise_o = end matches WordToken::Char(e) && operand_at(s, w0, e);
        let ghost premise_d = end == WordToken::EOF && dquoted_at(s, w0);
        let ghost premise_du = dquote_open_at(s, w0);
        let ghost premise_cs = advance_first && d0 >= 1 && open_subst_at(s, w0);
        let ghost premise_dx = advance_first && end == WordToken::EOF && d0 >= 1
            && digit_expansion_word_at(s, w0);
        let ghost c2: int = find_char(s, '"', w0 + 1);
        proof {
            if 0 <= w0 < s.len() && s[w0] == '\'' {
                lemma_find_char_props(s, '\'', w0 + 1);
            }
            if 0 <= w0 + 1 <= s.len() {
                lemma_find_char_props(s, '"', w0 + 1);
            }
        }
        let mut current_literal = String::new();
        let mut word_parts: Vec<WordPart> = Vec::new();
        let mut inside_double_quotes = false;
        loop
            invariant_except_break
                self.wf(),
                word_synced(*self),
                self.src() == s,
                s == old(self).src(),
                self.depth == d0,
                d0 == old(self).depth,
                0 <= w0 <= self.tok_start@,
                w0 == (if advance_first { old(self).lexer.pos as int } else { old(self).tok_start@ }),
                old(self).lexer.pos <= self.lexer.pos,
                end == WordToken::EOF || end matches WordToken::Char(_),
                premise1 == (end == WordToken::EOF && w0 < s.len() && all_plain(s, w0)),
                premise2 == (end == WordToken::EOF && 0 <= w0 < s.len() && s[w0] == '\''
                    && find_char(s, '\'', w0 + 1) == s.len() - 1),
                premise_u == (0 <= w0 < s.len() && s[w0] == '\'' && find_char(s, '\'', w0 + 1)
                    >= s.len()),
                premise_r == (end == WordToken::EOF && plain_word_at(s, w0)),
                premise_o == (end matches WordToken::Char(e) && operand_at(s, w0, e)),
                premise_d == (end == WordToken::EOF && dquoted_at(s, w0)),
                premise_du == dquote_open_at(s, w0),
                premise_cs == (advance_first && d0 >= 1 && open_subst_at(s, w0)),
                premise_cs ==> self.tok_start@ == w0,
                premise_dx == (advance_first && end == WordToken::EOF && d0 >= 1
                    && digit_expansion_word_at(s, w0)),
                premise_dx ==> {
                    &&& !inside_double_quotes
                    &&& ((self.tok_start@ == w0 && word_parts@.len() == 0
                        && current_literal@.len() == 0) || (w0 + 2 <= self.tok_start@ <= plain_run(
                        s,
                        w0 + 2,
                        '\n',
                    ) && word_parts@.len() == 1 && word_parts@[0]
                        == WordPart::ParameterExpansion(
                        ParameterExpansion::Simple(
                            Parameter::Number(
                                spec_digit_val(word_token_at(s, w0 + 1)->Char_0) as u32,
                            ),
                        ),
                    ) && current_literal@ == s.subrange(w0 + 2, self.tok_start@)))
                },
                c2 == find_char(s, '"', w0 + 1),
                forall|k: int|
                    0 <= k < word_parts@.len() ==> word_part_wf(#[trigger] word_parts@[k]),
                forall|k: int|
                    0 <= k < word_parts@.len() ==> ((#[trigger] word_parts@[k]) is Literal
                        ==> word_parts@[k]->Literal_0@.len() > 0),
                premise1 ==> {
                    &&& word_parts@.len() == 0
                    &&& current_literal@ == s.subrange(w0, self.tok_start@)
                    &&& !inside_double_quotes
                },
                premise2 || premise_u ==> {
                    &&& word_parts@.len() == 0
                    &&& !inside_double_quotes
                    &&& ((self.tok_start@ == w0 && current_literal@.len() == 0) || (premise2
                        && self.tok_start@ == s.len() && current_literal@ == s.subrange(
                        w0,
                        s.len() as int,
                    )))
                },
                premise_r ==> {
                    &&& word_parts@.len() == 0
                    &&& !inside_double_quotes
                    &&& w0 <= self.tok_start@ <= plain_run(s, w0, '\n')
                    &&& current_literal@ == s.subrange(w0, self.tok_start@)
                },
                premise_o ==> {
                    &&& word_parts@.len() == 0
                    &&& !inside_double_quotes
                    &&& w0 <= self.tok_start@ <= plain_run(s, w0, end->Char_0)
                    &&& current_literal@ == s.subrange(w0, self.tok_start@)
                },
                premise_d || premise_du ==> {
                    &&& word_parts@.len() == 0
                    &&& ((self.tok_start@ == w0 && current_literal@.len() == 0
                        && !inside_double_quotes) || (w0 < self.tok_start@ && self.tok_start@ <= c2
                        && inside_double_quotes && current_literal@ == s.subrange(
                        w0,
                        self.tok_start@,
                    )) || (premise_d && self.tok_start@ == s.len() && !inside_double_quotes
                        && current_literal@ == s.subrange(w0, s.len() as int)))
                },
            ensures
                self.wf(),
                self.src() == s,
                s == old(self).src(),
                self.depth == d0,
                d0 == old(self).depth,
                0 <= w0 <= self.tok_start@,
                w0 == (if advance_first { old(self).lexer.pos as int } else { old(self).tok_start@ }),
                w0 <= self.lexer.pos as int,
                forall|k: int|
                    0 <= k < word_parts@.len() ==> word_part_wf(#[trigger] word_parts@[k]),
                forall|k: int|
                    0 <= k < word_parts@.len() ==> ((#[trigger] word_parts@[k]) is Literal
                        ==> word_parts@[k]->Literal_0@.len() > 0),
                premise1 ==> {
                    &&& word_parts@.len() == 0
                    &&& current_literal@ == s.subrange(w0, s.len() as int)
                    &&& !inside_double_quotes
                },
                premise2 ==> {
                    &&& word_parts@.len() == 0
                    &&& current_literal@ == s.subrange(w0, s.len() as int)
                    &&& !inside_double_quotes
                },
                !premise_u,
                premise_r ==> {
                    &&& word_parts@.len() == 0
                    &&& !inside_double_quotes
                    &&& self.tok_start@ == plain_run(s, w0, '\n')
                    &&& self.lexer.pos as int == plain_run(s, w0, '\n')
                    &&& current_literal@ == s.subrange(w0, plain_run(s, w0, '\n'))
                },
                premise_o ==> {
                    &&& word_parts@.len() == 0
                    &&& !inside_double_quotes
                    &&& self.tok_start@ == plain_run(s, w0, end->Char_0)
                    &&& self.word_lookahead == end
                    &&& self.lexer.pos as int == plain_run(s, w0, end->Char_0) + 1
                    &&& current_literal@ == s.subrange(w0, plain_run(s, w0, end->Char_0))
                },
                premise_d ==> {
                    &&& word_parts@.len() == 0
                    &&& !inside_double_quotes
                    &&& current_literal@ == s.subrange(w0, s.len() as int)
                },
                premise_du ==> inside_double_quotes,
                premise_cs == (advance_first && d0 >= 1 && open_subst_at(s, w0)),
                !premise_cs,
                premise_dx == (advance_first && end == WordToken::EOF && d0 >= 1
                    && digit_expansion_word_at(s, w0)),
                premise_dx ==> {
                    &&& !inside_double_quotes
                    &&& self.tok_start@ == plain_run(s, w0 + 2, '\n')
                    &&& word_parts@.len() == 1
                    &&& word_parts@[0] == WordPart::ParameterExpansion(
                        ParameterExpansion::Simple(
                            Parameter::Number(
                                spec_digit_val(word_token_at(s, w0 + 1)->Char_0) as u32,
                            ),
                        ),
                    )
                    &&& current_literal@ == s.subrange(w0 + 2, plain_run(s, w0 + 2, '\n'))
                },
            decreases s.len() - self.tok_start@,
        {
            if !inside_double_quotes && self.word_lookahead == end {
                proof {
                    word_run_facts(s, w0, end);
                    if w0 < s.len() {
                        lemma_find_char_props(s, '"', w0 + 1);
                    }
                    if premise1 {
                        assert(self.tok_start@ == s.len());
                    }
                    if premise_r {
                        assert(self.tok_start@ == plain_run(s, w0, '\n'));
                    }
                    if premise_o {
                        assert(self.tok_start@ == plain_run(s, w0, end->Char_0));
                    }
                    if premise_d {
                        assert(self.tok_start@ == s.len());
                    }
                    if premise_du {
                        assert(false);
                    }
                    assert(!premise_cs);
                    if premise_dx {
                        lemma_plain_run_props(s, w0 + 2, '\n');
                        assert(self.tok_start@ == plain_run(s, w0 + 2, '\n'));
                    }
                }
                break;
            }
            match self.word_lookahead {
                WordToken::DoubleQuote => {
                    proof {
                        word_run_facts(s, w0, end);
                        if w0 < s.len() {
                            lemma_find_char_props(s, '"', w0 + 1);
                        }
                        assert(!premise1);
                        assert(!premise2);
                        assert(!premise_u);
                        assert(!premise_r);
                        assert(!premise_o);
                        assert(!premise_cs);
                        if w0 + 2 <= s.len() {
                            lemma_plain_run_props(s, w0 + 2, '\n');
                        }
                        assert(!premise_dx);
                    }
                    inside_double_quotes = !inside_double_quotes;
                    push_char(&mut current_literal, '"');
                    self.advance_word();
                    proof {
                        if premise_d || premise_du {
                            assert(current_literal@ =~= s.subrange(w0, self.tok_start@));
                        }
                    }
                },
                WordToken::SingleQuote => {
                    proof {
                        word_run_facts(s, w0, end);
                        if w0 < s.len() {
                            lemma_find_char_props(s, '"', w0 + 1);
                        }
                        assert(!premise_r);
                        assert(!premise_o);
                        assert(!premise_cs);
                        if w0 + 2 <= s.len() {
                            lemma_plain_run_props(s, w0 + 2, '\n');
                        }
                        assert(!premise_dx);
                    }
                    let ghost q_start = self.tok_start@;
                    push_char(&mut current_literal, '\'');
                    if !inside_double_quotes {
                        proof {
                            assert(!premise_d);
                            assert(!premise_du);
                        }
                        // Raw copy straight from the character source, so
                        // that nothing inside the quotes is interpreted.
                        loop
                            invariant_except_break
                                self.wf(),
                                self.src() == s,
                                s == old(self).src(),
                                self.depth == d0,
                                d0 == old(self).depth,
                                0 <= w0 <= q_start,
                                w0 == (if advance_first { old(self).lexer.pos as int } else { old(self).tok_start@ }),
                                self.tok_start@ == q_start,
                                old(self).lexer.pos <= self.lexer.pos,
                                q_start + 1 <= self.lexer.pos as int,
                                premise1 == (end == WordToken::EOF && w0 < s.len() && all_plain(
                                    s,
                                    w0,
                                )),
                                premise2 == (end == WordToken::EOF && 0 <= w0 < s.len() && s[w0]
                                    == '\'' && find_char(s, '\'', w0 + 1) == s.len() - 1),
                                premise_u == (0 <= w0 < s.len() && s[w0] == '\'' && find_char(
                                    s,
                                    '\'',
                                    w0 + 1,
                                ) >= s.len()),
                                !premise1,
                                premise_r == (end == WordToken::EOF && plain_word_at(s, w0)),
                                premise_o == (end matches WordToken::Char(e) && operand_at(
                                    s,
                                    w0,
                                    e,
                                )),
                                premise_d == (end == WordToken::EOF && dquoted_at(s, w0)),
                                premise_du == dquote_open_at(s, w0),
                                !premise_r,
                                !premise_o,
                                !premise_d,
                                !premise_du,
                                premise_cs == (advance_first && d0 >= 1 && open_subst_at(
                                    s,
                                    w0,
                                )),
                                !premise_cs,
                                premise_dx == (advance_first && end == WordToken::EOF && d0
                                    >= 1 && digit_expansion_word_at(s, w0)),
                                !premise_dx,
                                premise2 || premise_u ==> {
                                    &&& q_start == w0
                                    &&& word_parts@.len() == 0
                                    &&& !inside_double_quotes
                                    &&& w0 + 1 <= self.lexer.pos as int <= find_char(
                                        s,
                                        '\'',
                                        w0 + 1,
                                    )
                                    &&& current_literal@ == s.subrange(w0, self.lexer.pos as int)
                                },
                            ensures
                                self.wf(),
                                self.src() == s,
                                s == old(self).src(),
                                self.depth == d0,
                                d0 == old(self).depth,
                                0 <= w0 <= q_start,
                                w0 == (if advance_first { old(self).lexer.pos as int } else { old(self).tok_start@ }),
                                self.tok_start@ == q_start,
                                old(self).lexer.pos <= self.lexer.pos,
                                q_start + 1 <= self.lexer.pos as int,
                                !premise1,
                                !premise_u,
                                premise_r == (end == WordToken::EOF && plain_word_at(s, w0)),
                                premise_o == (end matches WordToken::Char(e) && operand_at(
                                    s,
                                    w0,
                                    e,
                                )),
                                premise_d == (end == WordToken::EOF && dquoted_at(s, w0)),
                                premise_du == dquote_open_at(s, w0),
                                !premise_r,
                                !premise_o,
                                !premise_d,
                                !premise_du,
                                premise_cs == (advance_first && d0 >= 1 && open_subst_at(
                                    s,
                                    w0,
                                )),
                                !premise_cs,
                                premise_dx == (advance_first && end == WordToken::EOF && d0
                                    >= 1 && digit_expansion_word_at(s, w0)),
                                !premise_dx,
                                premise2 ==> {
                                    &&& word_parts@.len() == 0
                                    &&& !inside_double_quotes
                                    &&& self.lexer.pos as int == s.len()
                                    &&& current_literal@ == s.subrange(w0, s.len() as int)
                                },
                            decreases s.len() - self.lexer.pos,
                        {
                            let copt = self.lexer.next_char();
                            match copt {
                                Some(ch) => {
                                    push_char(&mut current_literal, ch);
                                    proof {
                                        if premise2 || premise_u {
                                            lemma_find_char_props(s, '\'', w0 + 1);
                                            assert(current_literal@ =~= s.subrange(
                                                w0,
                                                self.lexer.pos as int,
                                            ));
                                        }
                                    }
                                    if ch == '\'' {
                                        break;
                                    }
                                },
                                None => {
                                    return Err(ParseError::UnterminatedQuote);
                                },
                            }
                        }
                    }
                    self.advance_word();
                    proof {
                        if premise_d || premise_du {
                            assert(current_literal@ =~= s.subrange(w0, self.tok_start@));
                        }
                    }
                },
                WordToken::Dollar => {
                    proof {
                        word_run_facts(s, w0, end);
                        if w0 < s.len() {
                            lemma_find_char_props(s, '"', w0 + 1);
                        }
                        assert(!premise1);
                        assert(!premise2);
                        assert(!premise_u);
                        assert(!premise_r);
                        assert(!premise_o);
                        assert(!premise_d);
                        assert(!premise_du);
                        if !(self.word_lookahead is CommandSubstitutionStart) {
                            assert(!premise_cs);
                        }
                        if w0 + 2 <= s.len() {
                            lemma_plain_run_props(s, w0 + 2, '\n');
                        }
                        if !(self.word_lookahead is Dollar) {
                            assert(!premise_dx);
                        }
                    }
                    push_literal(&mut current_literal, &mut word_parts);
                    if self.depth == 0 {
                        return Err(ParseError::LimitExceeded);
                    }
                    self.depth = self.depth - 1;
                    let e = self.parse_parameter_expansion();
                    self.depth = self.depth + 1;
                    match e {
                        Ok(pe) => {
                            let ghost pre_parts = word_parts@;
                            word_parts.push(WordPart::ParameterExpansion(pe));
                            proof {
                                if premise_dx {
                                    assert(word_parts@.drop_last() =~= pre_parts);
                                    assert(current_literal@ =~= s.subrange(
                                        w0 + 2,
                                        self.tok_start@,
                                    ));
                                }
                            }
                        },
                        Err(er) => {
                            return Err(er);
                        },
                    }
                },
                WordToken::CommandSubstitutionStart => {
                    proof {
                        word_run_facts(s, w0, end);
                        if w0 < s.len() {
                            lemma_find_char_props(s, '"', w0 + 1);
                        }
                        assert(!premise1);
                        assert(!premise2);
                        assert(!premise_u);
                        assert(!premise_r);
                        assert(!premise_o);
                        assert(!premise_d);
                        assert(!premise_du);
                        if !(self.word_lookahead is CommandSubstitutionStart) {
                            assert(!premise_cs);
                        }
                        if w0 + 2 <= s.len() {
                            lemma_plain_run_props(s, w0 + 2, '\n');
                        }
                        if !(self.word_lookahead is Dollar) {
                            assert(!premise_dx);
                        }
                    }
                    push_literal(&mut current_literal, &mut word_parts);
                    if self.depth == 0 {
                        return Err(ParseError::LimitExceeded);
                    }
                    self.depth = self.depth - 1;
                    self.advance_shell();
                    let pr = self.parse_program_until(ShellToken::RParen);
                    self.depth = self.depth + 1;
                    match pr {
                        Ok(prog) => {
                            word_parts.push(WordPart::CommandSubstitution(prog));
                        },
                        Err(er) => {
                            return Err(er);
                        },
                    }
                    self.advance_word();
                },
                WordToken::Backtick => {
                    proof {
                        word_run_facts(s, w0, end);
                        if w0 < s.len() {
                            lemma_find_char_props(s, '"', w0 + 1);
                        }
                        assert(!premise1);
                        assert(!premise2);
                        assert(!premise_u);
                        assert(!premise_r);
                        assert(!premise_o);
                        assert(!premise_d);
                        assert(!premise_du);
                        if !(self.word_lookahead is CommandSubstitutionStart) {
                            assert(!premise_cs);
                        }
                        if w0 + 2 <= s.len() {
                            lemma_plain_run_props(s, w0 + 2, '\n');
                        }
                        if !(self.word_lookahead is Dollar) {
                            assert(!premise_dx);
                        }
                    }
                    push_literal(&mut current_literal, &mut word_parts);
                    if self.depth == 0 {
                        return Err(ParseError::LimitExceeded);
                    }
                    // Collect the embedded text up to the closing backtick
                    // and hand it to a fresh instance of the whole pipeline.
                    let mut captured: Vec<char> = Vec::new();
                    let ghost t_arm = self.tok_start@;
                    loop
                        invariant_except_break
                            self.wf(),
                            self.src() == s,
                            s == old(self).src(),
                            self.depth == d0,
                            d0 == old(self).depth,
                            0 <= w0 <= t_arm,
                            w0 == (if advance_first { old(self).lexer.pos as int } else { old(self).tok_start@ }),
                            self.tok_start@ == t_arm,
                            old(self).lexer.pos <= self.lexer.pos,
                            t_arm + 1 <= self.lexer.pos as int,
                            premise1 == (end == WordToken::EOF && w0 < s.len() && all_plain(
                                s,
                                w0,
                            )),
                            premise2 == (end == WordToken::EOF && 0 <= w0 < s.len() && s[w0]
                                == '\'' && find_char(s, '\'', w0 + 1) == s.len() - 1),
                            premise_u == (0 <= w0 < s.len() && s[w0] == '\'' && find_char(
                                s,
                                '\'',
                                w0 + 1,
                            ) >= s.len()),
                            !premise1,
                            !premise2,
                            !premise_u,
                            premise_r == (end == WordToken::EOF && plain_word_at(s, w0)),
                            premise_o == (end matches WordToken::Char(e) && operand_at(s, w0, e)),
                            premise_d == (end == WordToken::EOF && dquoted_at(s, w0)),
                            premise_du == dquote_open_at(s, w0),
                            !premise_r,
                            !premise_o,
                            !premise_d,
                            !premise_du,
                            premise_cs == (advance_first && d0 >= 1 && open_subst_at(s, w0)),
                            !premise_cs,
                            premise_dx == (advance_first && end == WordToken::EOF && d0 >= 1
                                && digit_expansion_word_at(s, w0)),
                            !premise_dx,
                            0 < d0,
                        ensures
                            self.wf(),
                            self.src() == s,
                            s == old(self).src(),
                            self.depth == d0,
                            d0 == old(self).depth,
                            0 <= w0 <= t_arm,
                            w0 == (if advance_first { old(self).lexer.pos as int } else { old(self).tok_start@ }),
                            self.tok_start@ == t_arm,
                            old(self).lexer.pos <= self.lexer.pos,
                            t_arm + 1 <= self.lexer.pos as int,
                            premise1 == (end == WordToken::EOF && w0 < s.len() && all_plain(
                                s,
                                w0,
                            )),
                            premise2 == (end == WordToken::EOF && 0 <= w0 < s.len() && s[w0]
                                == '\'' && find_char(s, '\'', w0 + 1) == s.len() - 1),
                            premise_u == (0 <= w0 < s.len() && s[w0] == '\'' && find_char(
                                s,
                                '\'',
                                w0 + 1,
                            ) >= s.len()),
                            !premise1,
                            !premise2,
                            !premise_u,
                            premise_r == (end == WordToken::EOF && plain_word_at(s, w0)),
                            premise_o == (end matches WordToken::Char(e) && operand_at(s, w0, e)),
                            premise_d == (end == WordToken::EOF && dquoted_at(s, w0)),
                            premise_du == dquote_open_at(s, w0),
                            !premise_r,
                            !premise_o,
                            !premise_d,
                            !premise_du,
                            premise_cs == (advance_first && d0 >= 1 && open_subst_at(s, w0)),
                            !premise_cs,
                            premise_dx == (advance_first && end == WordToken::EOF && d0 >= 1
                                && digit_expansion_word_at(s, w0)),
                            !premise_dx,
                            0 < d0,
                        decreases s.len() - self.lexer.pos,
                    {
                        let copt = self.lexer.next_char();
                        match copt {
                            Some(ch) => {
                                if ch == '`' {
                                    break;
                                }
                                captured.push(ch);
                            },
                            None => {
                                return Err(ParseError::UnterminatedSubstitution);
                            },
                        }
                    }
                    let mut sub = Parser::with_chars(captured, self.depth - 1);
                    let prog = match sub.parse_program() {
                        Ok(p) => p,
                        Err(er) => {
                            return Err(er);
                        },
                    };
                    word_parts.push(WordPart::CommandSubstitution(prog));
                    self.advance_word();
                },
                WordToken::ArithmeticExpansionStart => {
                    proof {
                        word_run_facts(s, w0, end);
                        if w0 < s.len() {
                            lemma_find_char_props(s, '"', w0 + 1);
                        }
                        assert(!premise1);
                        assert(!premise2);
                        assert(!premise_u);
                        assert(!premise_r);
                        assert(!premise_o);
                        assert(!premise_d);
                        assert(!premise_du);
                        if !(self.word_lookahead is CommandSubstitutionStart) {
                            assert(!premise_cs);
                        }
                        if w0 + 2 <= s.len() {
                            lemma_plain_run_props(s, w0 + 2, '\n');
                        }
                        if !(self.word_lookahead is Dollar) {
                            assert(!premise_dx);
                        }
                    }
                    push_literal(&mut current_literal, &mut word_parts);
                    let expr = match self.parse_arithmetic_expansion() {
                        Ok(e) => e,
                        Err(er) => {
                            return Err(er);
                        },
                    };
                    word_parts.push(WordPart::ArithmeticExpansion(expr));
                    self.advance_word();
                },
                WordToken::Char(c) => {
                    proof {
                        word_run_facts(s, w0, end);
                        if w0 < s.len() {
                            lemma_find_char_props(s, '"', w0 + 1);
                        }
                        assert(!premise_cs);
                        if w0 + 2 <= s.len() {
                            lemma_plain_run_props(s, w0 + 2, '\n');
                        }
                    }
                    if !inside_double_quotes && ends_word(c) {
                        // An unquoted blank, operator or newline ends the
                        // word.  It belongs to the shell level, so put it
                        // back for the shell lexer to see.
                        proof {
                            assert(!premise_o);
                            assert(!premise_d);
                            assert(!premise_du);
                            if premise_r {
                                assert(self.tok_start@ == plain_run(s, w0, '\n'));
                            }
                            if premise_dx {
                                assert(self.tok_start@ == plain_run(s, w0 + 2, '\n'));
                            }
                        }
                        self.lexer.pos = self.lexer.pos - 1;
                        break;
                    }
                    push_char(&mut current_literal, c);
                    self.advance_word();
                    proof {
                        if premise1 || premise_r || premise_o || premise_d || premise_du {
                            assert(current_literal@ =~= s.subrange(w0, self.tok_start@));
                        }
                        if premise_dx {
                            assert(current_literal@ =~= s.subrange(w0 + 2, self.tok_start@));
                        }
                    }
                },
                WordToken::EOF => {
                    proof {
                        word_run_facts(s, w0, end);
                        if w0 < s.len() {
                            lemma_find_char_props(s, '"', w0 + 1);
                        }
                        assert(!premise_r);
                        assert(!premise_o);
                        assert(!premise_d);
                        assert(!premise_cs);
                        if w0 + 2 <= s.len() {
                            lemma_plain_run_props(s, w0 + 2, '\n');
                        }
                        assert(!premise_dx);
                    }
                    break;
                },
            }
        }
        if inside_double_quotes {
            return Err(ParseError::UnterminatedQuote);
        }
        push_literal(&mut current_literal, &mut word_parts);
        proof {
            if premise_dx {
                lemma_plain_run_props(s, w0 + 2, '\n');
            }
        }
        if word_parts.len() == 0 {
            Ok(None)
        } else {
            Ok(Some(Word { parts: word_parts }))
        }
    }

    /// Capture the raw arithmetic-expression text from just past `$((` up
    /// to the matching `))`, which is consumed.  The expression itself is
    /// an opaque sub-grammar that an external evaluator consumes later.
    /// When the text holds no parentheses of its own, the contract pins it:
    /// everything up to the closing `))`, which is consumed exactly.
    pub fn parse_arithmetic_expansion(&mut self) -> (r: Result<ArithmeticExpr, ParseError>)
        requires
            old(self).wf(),
        ensures
            final(self).wf(),
            final(self).src() == old(self).src(),
            final(self).depth == old(self).depth,
            final(self).tok_start == old(self).tok_start,
            final(self).word_lookahead == old(self).word_lookahead,
            final(self).shell_lookahead == old(self).shell_lookahead,
            old(self).lexer.pos <= final(self).lexer.pos,
            ({
                let s = old(self).src();
                let p = old(self).lexer.pos as int;
                let q = find_char(s, ')', p);
                (q + 1 < s.len() && s[q + 1] == ')' && (forall|k: int|
                    p <= k < q ==> (#[trigger] s[k]) != '(')) ==> {
                    &&& (r matches Ok(e) && e.text@ == s.subrange(p, q))
                    &&& final(self).lexer.pos as int == q + 2
                }
            }),
    {
        let ghost s = self.src();
        let ghost p0 = self.lexer.pos as int;
        let ghost q0 = find_char(s, ')', p0);
        let ghost flat = q0 + 1 < s.len() && s[q0 + 1] == ')' && (forall|k: int|
            p0 <= k < q0 ==> (#[trigger] s[k]) != '(');
        proof {
            lemma_find_char_props(s, ')', p0);
        }
        let mut text = String::new();
        let mut level: usize = 0;
        loop
            invariant_except_break
                self.wf(),
                self.src() == s,
                s == old(self).src(),
                self.depth == old(self).depth,
                self.tok_start == old(self).tok_start,
                self.word_lookahead == old(self).word_lookahead,
                self.shell_lookahead == old(self).shell_lookahead,
                old(self).lexer.pos <= self.lexer.pos,
                p0 == old(self).lexer.pos as int,
                q0 == find_char(s, ')', p0),
                flat == (q0 + 1 < s.len() && s[q0 + 1] == ')' && (forall|k: int|
                    p0 <= k < q0 ==> (#[trigger] s[k]) != '(')),
                flat ==> {
                    &&& level == 0
                    &&& p0 <= self.lexer.pos as int <= q0
                    &&& text@ == s.subrange(p0, self.lexer.pos as int)
                },
            ensures
                self.wf(),
                self.src() == s,
                s == old(self).src(),
                self.depth == old(self).depth,
                self.tok_start == old(self).tok_start,
                self.word_lookahead == old(self).word_lookahead,
                self.shell_lookahead == old(self).shell_lookahead,
                old(self).lexer.pos <= self.lexer.pos,
                p0 == old(self).lexer.pos as int,
                q0 == find_char(s, ')', p0),
                flat == (q0 + 1 < s.len() && s[q0 + 1] == ')' && (forall|k: int|
                    p0 <= k < q0 ==> (#[trigger] s[k]) != '(')),
                flat ==> {
                    &&& text@ == s.subrange(p0, q0)
                    &&& self.lexer.pos as int == q0 + 2
                },
            decreases s.len() - self.lexer.pos,
        {
            proof {
                lemma_find_char_props(s, ')', p0);
            }
            let copt = self.lexer.next_char();
            match copt {
                Some(ch) => {
                    if ch == '(' {
                        if level < usize::MAX {
                            level = level + 1;
                        }
                        push_char(&mut text, ch);
                        proof {
                            if flat {
                                assert(text@ =~= s.subrange(p0, self.lexer.pos as int));
                            }
                        }
                    } else if ch == ')' {
                        if level > 0 {
                            level = level - 1;
                            push_char(&mut text, ch);
                        } else {
                            let copt2 = self.lexer.next_char();
                            match copt2 {
                                Some(c2) => {
                                    if c2 == ')' {
                                        break;
                                    } else {
                                        return Err(
                                            ParseError::SyntaxError { position: self.lexer.pos },
                                        );
                                    }
                                },
                                None => {
                                    return Err(ParseError::UnterminatedSubstitution);
                                },
                            }
                        }
                    } else {
                        push_char(&mut text, ch);
                        proof {
                            if flat {
                                assert(text@ =~= s.subrange(p0, self.lexer.pos as int));
                            }
                        }
                    }
                },
                None => {
                    return Err(ParseError::UnterminatedSubstitution);
                },
            }
        }
        Ok(ArithmeticExpr { text })
    }

    /// Parse the kind of the redirection whose operator token sits in the
    /// shell lookahead slot.  For each of the seven IO operators the
    /// contract pins the operator kind, and — when a plain word follows —
    /// success and the target word; for `<<` and `<<-` it pins the
    /// tab-stripping flag and, whenever a delimiter line occurs, the
    /// captured contents line by line; any other token leaves the parser
    /// untouched and yields `None`.
    pub fn parse_redirection_kind(&mut self) -> (r: Result<Option<RedirectionKind>, ParseError>)
        requires
            old(self).wf(),
        ensures
            final(self).wf(),
            final(self).src() == old(self).src(),
            final(self).depth == old(self).depth,
            old(self).lexer.pos <= final(self).lexer.pos,
            ({
                let t = old(self).shell_lookahead;
                &&& (io_kind_of(t) matches Some(k) ==> (r matches Ok(Some(rk)) ==> {
                    &&& rk is IORedirection
                    &&& rk->IORedirection_kind == k
                    &&& word_wf(rk->IORedirection_file)
                }))
                &&& (io_kind_of(t) matches Some(k) ==> (pinned_target_at(
                    old(self).src(),
                    old(self).lexer.pos as int,
                ) ==> (r matches Ok(rko) && (rko matches Some(rk) && (rk
                    matches RedirectionKind::IORedirection { kind, file } && kind == k
                    && target_word_is(file, old(self).src(), old(self).lexer.pos as int))))))
                &&& (t == ShellToken::DLess ==> (r matches Ok(Some(rk)) ==> rk is HereDocument
                    && rk->HereDocument_strip_leading_tabs == false))
                &&& (t == ShellToken::DLessDash ==> (r matches Ok(Some(rk)) ==> rk
                    is HereDocument && rk->HereDocument_strip_leading_tabs == true))
                &&& (t == ShellToken::DLess || t == ShellToken::DLessDash ==> {
                    let s = old(self).src();
                    let p = old(self).lexer.pos as int;
                    let d_end = line_end(s, p);
                    let delim = s.subrange(p, d_end);
                    heredoc_closes(s, d_end, delim) ==> (r matches Ok(ro) && (ro matches Some(rk)
                        && (rk matches RedirectionKind::HereDocument {
                        contents,
                        strip_leading_tabs,
                    } && contents@ == heredoc_body(s, d_end, delim, t == ShellToken::DLessDash)
                        && strip_leading_tabs == (t == ShellToken::DLessDash))))
                })
                &&& (io_kind_of(t) is None && t != ShellToken::DLess && t != ShellToken::DLessDash
                    ==> r == Ok::<Option<RedirectionKind>, ParseError>(None) && *final(self)
                    == *old(self))
                &&& (io_kind_of(t) is Some || t == ShellToken::DLess || t == ShellToken::DLessDash
                    ==> (r is Ok ==> r->Ok_0 is Some))
                &&& (io_kind_of(t) is Some ==> ((!io_number_at(
                    old(self).src(),
                    token_start(old(self).src(), old(self).lexer.pos as int),
                ) && shell_token_at(
                    old(self).src(),
                    token_start(old(self).src(), old(self).lexer.pos as int),
                ) != ShellToken::WordStart) ==> (r matches Err(e) && e is SyntaxError)))
            }),
        decreases self.depth, 3int,
    {
        let ghost s = self.src();
        let ghost d0 = self.depth;
        if self.shell_lookahead == ShellToken::DLess || self.shell_lookahead
            == ShellToken::DLessDash {
            let remove_leading_tabs = self.shell_lookahead == ShellToken::DLessDash;
            let ghost p_delim = self.lexer.pos as int;
            // The delimiter is the rest of the current line; the body is
            // captured raw, line by line, until a line equals the delimiter.
            let end_line = self.lexer.next_line();
            let ghost d_end = self.lexer.pos as int;
            let ghost delim = end_line@;
            let mut contents = String::new();
            proof {
                assert(contents@ + heredoc_body(s, d_end, delim, remove_leading_tabs)
                    =~= heredoc_body(s, d_end, delim, remove_leading_tabs));
            }
            loop
                invariant_except_break
                    self.wf(),
                    self.src() == s,
                    s == old(self).src(),
                    self.depth == d0,
                    d0 == old(self).depth,
                    old(self).shell_lookahead == ShellToken::DLess || old(
                        self,
                    ).shell_lookahead == ShellToken::DLessDash,
                    remove_leading_tabs == (old(self).shell_lookahead == ShellToken::DLessDash),
                    old(self).lexer.pos <= self.lexer.pos,
                    p_delim == old(self).lexer.pos as int,
                    d_end == line_end(s, p_delim),
                    delim == s.subrange(p_delim, d_end),
                    delim == end_line@,
                    d_end <= self.lexer.pos as int <= s.len(),
                    heredoc_closes(s, d_end, delim) == heredoc_closes(
                        s,
                        self.lexer.pos as int,
                        delim,
                    ),
                    heredoc_body(s, d_end, delim, remove_leading_tabs) == contents@
                        + heredoc_body(s, self.lexer.pos as int, delim, remove_leading_tabs),
                ensures
                    self.wf(),
                    self.src() == s,
                    s == old(self).src(),
                    self.depth == d0,
                    d0 == old(self).depth,
                    old(self).shell_lookahead == ShellToken::DLess || old(
                        self,
                    ).shell_lookahead == ShellToken::DLessDash,
                    remove_leading_tabs == (old(self).shell_lookahead == ShellToken::DLessDash),
                    old(self).lexer.pos <= self.lexer.pos,
                    p_delim == old(self).lexer.pos as int,
                    d_end == line_end(s, p_delim),
                    delim == s.subrange(p_delim, d_end),
                    contents@ == heredoc_body(s, d_end, delim, remove_leading_tabs),
                decreases s.len() - self.lexer.pos,
            {
                let ghost pre = self.lexer.pos as int;
                let line = self.lexer.next_line();
                if line == end_line {
                    proof {
                        assert(heredoc_body(s, pre, delim, remove_leading_tabs)
                            =~= Seq::<char>::empty());
                        assert(contents@ =~= heredoc_body(s, d_end, delim, remove_leading_tabs));
                    }
                    break;
                }
                if line.as_str().is_empty() {
                    // The input ended before the delimiter line.
                    proof {
                        lemma_line_end_ge(s, pre);
                        assert(!heredoc_closes(s, pre, delim));
                    }
                    return Err(ParseError::UnterminatedSubstitution);
                }
                proof {
                    lemma_line_end_ge(s, pre);
                    assert(self.lexer.pos as int > pre);
                }
                if remove_leading_tabs {
                    let n = line.as_str().unicode_len();
                    let mut idx: usize = 0;
                    while idx < n && line.as_str().get_char(idx) == '\t'
                        invariant
                            idx <= n,
                            n as nat == line@.len(),
                            tab_run(line@, 0) == tab_run(line@, idx as int),
                        decreases n - idx,
                    {
                        idx = idx + 1;
                    }
                    proof {
                        assert(tab_run(line@, 0) == idx as int);
                        assert(line@.subrange(idx as int, n as int) =~= strip_tabs(line@));
                    }
                    contents.append(line.as_str().substring_char(idx, n));
                } else {
                    contents.append(line.as_str());
                }
            }
            return Ok(Some(RedirectionKind::HereDocument {
                contents,
                strip_leading_tabs: remove_leading_tabs,
            }));
        }
        let kind: IORedirectionKind;
        if self.shell_lookahead == ShellToken::Greater {
            kind = IORedirectionKind::RedirectOutput;
        } else if self.shell_lookahead == ShellToken::Clobber {
            kind = IORedirectionKind::RedirectOutputClobber;
        } else if self.shell_lookahead == ShellToken::DGreat {
            kind = IORedirectionKind::RedirectOutputAppend;
        } else if self.shell_lookahead == ShellToken::GreatAnd {
            kind = IORedirectionKind::DuplicateOutput;
        } else if self.shell_lookahead == ShellToken::Less {
            kind = IORedirectionKind::RedirectInput;
        } else if self.shell_lookahead == ShellToken::LessAnd {
            kind = IORedirectionKind::DuplicateInput;
        } else if self.shell_lookahead == ShellToken::LessGreat {
            kind = IORedirectionKind::OpenRW;
        } else {
            return Ok(None);
        }
        // Step past the operator and parse the target word.
        self.advance_shell();
        if self.shell_lookahead == ShellToken::WordStart {
            let wopt = match self.parse_word_until(WordToken::EOF, true) {
                Ok(w) => w,
                Err(e) => return Err(e),
            };
            match wopt {
                Some(file) => Ok(Some(RedirectionKind::IORedirection { kind, file })),
                None => Err(ParseError::SyntaxError { position: self.lexer.pos }),
            }
        } else {
            Err(ParseError::SyntaxError { position: self.lexer.pos })
        }
    }

    /// Parse one optional redirection, including its optional
    /// file-descriptor prefix.  A prefix outside 0-9 is rejected with
    /// `InvalidFileDescriptor`; a present prefix is carried into the result
    /// exactly.
    pub fn parse_redirection_opt(&mut self) -> (r: Result<Option<Redirection>, ParseError>)
        requires
            old(self).wf(),
        ensures
            final(self).wf(),
            final(self).src() == old(self).src(),
            final(self).depth == old(self).depth,
            old(self).lexer.pos <= final(self).lexer.pos,
            (r matches Ok(Some(red)) ==> redirection_wf(red)),
            ({
                let t = old(self).shell_lookahead;
                &&& (t matches ShellToken::IoNumber(n) ==> n > 9 ==> r == Err::<
                    Option<Redirection>,
                    ParseError,
                >(ParseError::InvalidFileDescriptor))
                &&& (t matches ShellToken::IoNumber(n) ==> n <= 9 ==> (r matches Ok(Some(red))
                    ==> red.file_descriptor == Some(n)))
                &&& (!(t is IoNumber) ==> (r matches Ok(Some(red)) ==> red.file_descriptor
                    is None))
                &&& (!(t is IoNumber) && io_kind_of(t) is None && t != ShellToken::DLess && t
                    != ShellToken::DLessDash ==> r == Ok::<Option<Redirection>, ParseError>(None)
                    && *final(self) == *old(self))
                &&& (!(t is IoNumber) && (io_kind_of(t) is Some || t == ShellToken::DLess || t
                    == ShellToken::DLessDash) ==> (r is Ok ==> r->Ok_0 is Some))
                &&& (!(t is IoNumber) ==> (io_kind_of(t) matches Some(k) ==> (pinned_target_at(
                    old(self).src(),
                    old(self).lexer.pos as int,
                ) ==> (r matches Ok(ro) && (ro matches Some(red) && red.file_descriptor is None
                    && (red.kind matches RedirectionKind::IORedirection { kind, file } && kind == k
                    && target_word_is(file, old(self).src(), old(self).lexer.pos as int)))))))
                &&& (t matches ShellToken::IoNumber(n) ==> (n <= 9 ==> (!io_number_at(
                    old(self).src(),
                    token_start(old(self).src(), old(self).lexer.pos as int),
                ) ==> (io_kind_of(next_tok(old(self).src(), old(self).lexer.pos as int))
                    matches Some(k) ==> (pinned_target_at(
                    old(self).src(),
                    next_tok_end(old(self).src(), old(self).lexer.pos as int),
                ) ==> (r matches Ok(ro) && (ro matches Some(red) && red.file_descriptor == Some(n)
                    && (red.kind matches RedirectionKind::IORedirection { kind, file } && kind == k
                    && target_word_is(
                    file,
                    old(self).src(),
                    next_tok_end(old(self).src(), old(self).lexer.pos as int),
                )))))))))
            }),
        decreases self.depth, 4int,
    {
        match self.shell_lookahead {
            ShellToken::IoNumber(n) => {
                if n > 9 {
                    return Err(ParseError::InvalidFileDescriptor);
                }
                self.advance_shell();
                let kopt = match self.parse_redirection_kind() {
                    Ok(k) => k,
                    Err(e) => return Err(e),
                };
                match kopt {
                    Some(kind) => Ok(Some(Redirection { file_descriptor: Some(n), kind })),
                    None => Err(ParseError::SyntaxError { position: self.lexer.pos }),
                }
            },
            _ => {
                let kopt = match self.parse_redirection_kind() {
                    Ok(k) => k,
                    Err(e) => return Err(e),
                };
                match kopt {
                    Some(kind) => Ok(Some(Redirection { file_descriptor: None, kind })),
                    None => Ok(None),
                }
            },
        }
    }

    /// Parse one simple command: an assignment-and-redirection prefix, an
    /// optional command word, then arguments and further redirections.  A
    /// command with nothing in it at all is a syntax error.
    ///
    /// Input families are pinned exactly, success included: a single
    /// plain command word; a plain `name=value` word followed by a
    /// command word, which is split at its first `=` into the one
    /// assignment; and the general word sequence of any number of
    /// assignment words, a command word free of `=`, and any number of
    /// argument words, decoded in order.
    pub fn parse_simple_command(&mut self) -> (r: Result<SimpleCommand, ParseError>)
        requires
            old(self).wf(),
        ensures
            final(self).wf(),
            final(self).src() == old(self).src(),
            final(self).depth == old(self).depth,
            old(self).lexer.pos <= final(self).lexer.pos,
            (r matches Ok(sc) ==> simple_command_wf(sc)),
            (r matches Ok(sc) ==> (sc.command is Some || sc.assignments@.len() > 0
                || sc.redirections@.len() > 0)),
            (old(self).shell_lookahead == ShellToken::WordStart && bare_command_at(
                old(self).src(),
                old(self).lexer.pos as int,
            ) ==> {
                let s = old(self).src();
                let p = old(self).lexer.pos as int;
                let q = plain_run(s, p, '\n');
                &&& (r matches Ok(sc) && bare_command_result(sc, s, p))
                &&& shell_token_matches(s, token_start(s, q), final(self).shell_lookahead)
                &&& final(self).lexer.pos as int == next_tok_end(s, q)
            }),
            (old(self).shell_lookahead == ShellToken::WordStart && assign_then_command_at(
                old(self).src(),
                old(self).lexer.pos as int,
            ) ==> (r matches Ok(sc) && assign_command_result(
                sc,
                old(self).src(),
                old(self).lexer.pos as int,
            ))),
            (forall|na: nat, nb: nat|
                (old(self).shell_lookahead == ShellToken::WordStart && word_seq_command_at(
                    old(self).src(),
                    old(self).lexer.pos as int,
                    na,
                    nb,
                )) ==> (r matches Ok(sc) && word_seq_command_result(
                    sc,
                    old(self).src(),
                    old(self).lexer.pos as int,
                    na,
                    nb,
                ))),
            (old(self).shell_lookahead == ShellToken::WordStart && old(self).depth >= 1
                && open_subst_after_word_at(old(self).src(), old(self).lexer.pos as int) ==> r
                == Err::<SimpleCommand, ParseError>(ParseError::UnterminatedSubstitution)),
        decreases self.depth, 5int,
    {
        let ghost s = self.src();
        let ghost d0 = self.depth;
        let mut command = SimpleCommand {
            command: None,
            arguments: Vec::new(),
            assignments: Vec::new(),
            redirections: Vec::new(),
        };
        let mut fuel: usize = usize::MAX;
        let mut have_command = false;
        let ghost p0 = self.lexer.pos as int;
        let ghost bare = self.shell_lookahead == ShellToken::WordStart && bare_command_at(s, p0);
        let ghost asgn = self.shell_lookahead == ShellToken::WordStart && assign_then_command_at(
            s,
            p0,
        );
        let ghost q1a = plain_run(s, p0, '\n');
        let ghost ma = find_char(s.subrange(p0, q1a), '=', 0);
        let ghost j2a = token_start(s, q1a);
        let ghost q2a = plain_run(s, j2a, '\n');
        let ghost has_seq = self.shell_lookahead == ShellToken::WordStart && exists|
            na: nat,
            nb: nat,
        | word_seq_command_at(s, p0, na, nb);
        let ghost (gna, gnb): (nat, nat) = if has_seq {
            choose|na: nat, nb: nat| word_seq_command_at(s, p0, na, nb)
        } else {
            (0nat, 0nat)
        };
        let ghost mut jg: nat = 0;
        let ghost pcs = self.shell_lookahead == ShellToken::WordStart && d0 >= 1
            && open_subst_after_word_at(s, p0);
        let chars_len = self.lexer.chars.len();
        proof {
            assert(s.len() <= usize::MAX);
            if has_seq {
                lemma_plain_run_props(s, p0, '\n');
                lemma_more_words_len(s, q1a, (gna + gnb) as nat);
            }
        }
        // Phase 1: assignments and redirections, up to the command word.
        loop
            invariant_except_break
                self.wf(),
                self.src() == s,
                s == old(self).src(),
                self.depth == d0,
                d0 == old(self).depth,
                old(self).lexer.pos <= self.lexer.pos,
                p0 == old(self).lexer.pos as int,
                bare == (old(self).shell_lookahead == ShellToken::WordStart && bare_command_at(
                    s,
                    p0,
                )),
                simple_command_wf(command),
                command.command is None,
                command.arguments@.len() == 0,
                !have_command,
                bare ==> fuel == usize::MAX,
                bare ==> {
                    &&& command.assignments@.len() == 0
                    &&& command.redirections@.len() == 0
                    &&& self.shell_lookahead == ShellToken::WordStart
                    &&& self.lexer.pos as int == p0
                },
                asgn == (old(self).shell_lookahead == ShellToken::WordStart
                    && assign_then_command_at(s, p0)),
                q1a == plain_run(s, p0, '\n'),
                ma == find_char(s.subrange(p0, q1a), '=', 0),
                j2a == token_start(s, q1a),
                q2a == plain_run(s, j2a, '\n'),
                asgn ==> ({
                    &&& fuel == usize::MAX
                    &&& command.assignments@.len() == 0
                    &&& command.redirections@.len() == 0
                    &&& self.shell_lookahead == ShellToken::WordStart
                    &&& self.lexer.pos as int == p0
                } || {
                    &&& fuel == usize::MAX - 1
                    &&& command.assignments@.len() == 1
                    &&& command.assignments@[0].name@ == s.subrange(p0, p0 + ma)
                    &&& single_literal_word(
                        command.assignments@[0].value,
                        s.subrange(p0 + ma + 1, q1a),
                    )
                    &&& command.redirections@.len() == 0
                    &&& self.shell_lookahead == ShellToken::WordStart
                    &&& self.lexer.pos as int == j2a
                }),
                has_seq == (old(self).shell_lookahead == ShellToken::WordStart && exists|
                    na: nat,
                    nb: nat,
                | word_seq_command_at(s, p0, na, nb)),
                has_seq ==> word_seq_command_at(s, p0, gna, gnb),
                has_seq ==> q1a + gna + gnb <= s.len() && 1 <= q1a,
                s.len() <= usize::MAX,
                pcs == (old(self).shell_lookahead == ShellToken::WordStart && d0 >= 1
                    && open_subst_after_word_at(s, p0)),
                pcs ==> {
                    &&& fuel == usize::MAX
                    &&& command.assignments@.len() == 0
                    &&& command.redirections@.len() == 0
                    &&& self.shell_lookahead == ShellToken::WordStart
                    &&& self.lexer.pos as int == p0
                },
                has_seq ==> {
                    &&& jg <= gna
                    &&& fuel == usize::MAX - jg
                    &&& command.redirections@.len() == 0
                    &&& command.assignments@.len() == jg
                    &&& (forall|k: int|
                        0 <= k < jg ==> {
                            let lo = wseq_start(s, p0, k as nat);
                            let hi = wseq_end(s, p0, k as nat);
                            let m = find_char(s.subrange(lo, hi), '=', 0);
                            &&& (#[trigger] command.assignments@[k]).name@ == s.subrange(
                                lo,
                                lo + m,
                            )
                            &&& single_literal_word(
                                command.assignments@[k].value,
                                s.subrange(lo + m + 1, hi),
                            )
                        })
                    &&& self.shell_lookahead == ShellToken::WordStart
                    &&& self.lexer.pos as int == wseq_start(s, p0, jg)
                    &&& plain_word_at(s, wseq_start(s, p0, jg))
                    &&& more_words(s, wseq_end(s, p0, jg), (gna + gnb - jg) as nat)
                },
            ensures
                self.wf(),
                self.src() == s,
                s == old(self).src(),
                self.depth == d0,
                d0 == old(self).depth,
                old(self).lexer.pos <= self.lexer.pos,
                p0 == old(self).lexer.pos as int,
                bare == (old(self).shell_lookahead == ShellToken::WordStart && bare_command_at(
                    s,
                    p0,
                )),
                simple_command_wf(command),
                command.arguments@.len() == 0,
                have_command ==> command.command is Some,
                !have_command ==> command.command is None,
                bare ==> fuel == usize::MAX - 1,
                asgn ==> fuel == usize::MAX - 2,
                bare ==> {
                    &&& have_command
                    &&& (command.command matches Some(w) && single_literal_word(
                        w,
                        s.subrange(p0, plain_run(s, p0, '\n')),
                    ))
                    &&& command.assignments@.len() == 0
                    &&& command.redirections@.len() == 0
                    &&& shell_token_matches(
                        s,
                        token_start(s, plain_run(s, p0, '\n')),
                        self.shell_lookahead,
                    )
                    &&& self.lexer.pos as int == next_tok_end(s, plain_run(s, p0, '\n'))
                },
                asgn == (old(self).shell_lookahead == ShellToken::WordStart
                    && assign_then_command_at(s, p0)),
                q1a == plain_run(s, p0, '\n'),
                ma == find_char(s.subrange(p0, q1a), '=', 0),
                j2a == token_start(s, q1a),
                q2a == plain_run(s, j2a, '\n'),
                asgn ==> {
                    &&& have_command
                    &&& command.assignments@.len() == 1
                    &&& command.assignments@[0].name@ == s.subrange(p0, p0 + ma)
                    &&& single_literal_word(
                        command.assignments@[0].value,
                        s.subrange(p0 + ma + 1, q1a),
                    )
                    &&& (command.command matches Some(w) && single_literal_word(
                        w,
                        s.subrange(j2a, q2a),
                    ))
                    &&& command.redirections@.len() == 0
                    &&& shell_token_matches(s, token_start(s, q2a), self.shell_lookahead)
                    &&& self.lexer.pos as int == next_tok_end(s, q2a)
                },
                has_seq == (old(self).shell_lookahead == ShellToken::WordStart && exists|
                    na: nat,
                    nb: nat,
                | word_seq_command_at(s, p0, na, nb)),
                has_seq ==> word_seq_command_at(s, p0, gna, gnb),
                has_seq ==> q1a + gna + gnb <= s.len() && 1 <= q1a,
                s.len() <= usize::MAX,
                pcs == (old(self).shell_lookahead == ShellToken::WordStart && d0 >= 1
                    && open_subst_after_word_at(s, p0)),
                pcs ==> {
                    &&& have_command
                    &&& fuel == usize::MAX - 1
                    &&& shell_token_matches(
                        s,
                        token_start(s, plain_run(s, p0, '\n')),
                        self.shell_lookahead,
                    )
                    &&& self.lexer.pos as int == next_tok_end(s, plain_run(s, p0, '\n'))
                },
                has_seq ==> {
                    &&& have_command
                    &&& jg == gna
                    &&& fuel == usize::MAX - gna - 1
                    &&& command.redirections@.len() == 0
                    &&& command.assignments@.len() == gna
                    &&& (forall|k: int|
                        0 <= k < jg ==> {
                            let lo = wseq_start(s, p0, k as nat);
                            let hi = wseq_end(s, p0, k as nat);
                            let m = find_char(s.subrange(lo, hi), '=', 0);
                            &&& (#[trigger] command.assignments@[k]).name@ == s.subrange(
                                lo,
                                lo + m,
                            )
                            &&& single_literal_word(
                                command.assignments@[k].value,
                                s.subrange(lo + m + 1, hi),
                            )
                        })
                    &&& (command.command matches Some(w) && single_literal_word(
                        w,
                        s.subrange(wseq_start(s, p0, gna), wseq_end(s, p0, gna)),
                    ))
                    &&& more_words(s, wseq_end(s, p0, gna), gnb)
                    &&& shell_token_matches(
                        s,
                        token_start(s, wseq_end(s, p0, gna)),
                        self.shell_lookahead,
                    )
                    &&& self.lexer.pos as int == next_tok_end(s, wseq_end(s, p0, gna))
                },
            decreases fuel,
        {
            match self.shell_lookahead {
                ShellToken::WordStart => {
                    if fuel == 0 {
                        return Err(ParseError::LimitExceeded);
                    }
                    fuel = fuel - 1;
                    let wopt = match self.parse_word_until(WordToken::EOF, true) {
                        Ok(w) => w,
                        Err(e) => return Err(e),
                    };
                    let w = match wopt {
                        Some(w) => w,
                        None => {
                            return Err(ParseError::SyntaxError { position: self.lexer.pos });
                        },
                    };
                    proof {
                        if bare {
                            // The pinned command word holds no `=`, so it
                            // cannot be read as an assignment.
                            lemma_plain_run_props(s, p0, '\n');
                            lemma_find_char_props(
                                s.subrange(p0, plain_run(s, p0, '\n')),
                                '=',
                                0,
                            );
                            assert(find_char(s.subrange(p0, plain_run(s, p0, '\n')), '=', 0)
                                == plain_run(s, p0, '\n') - p0);
                        }
                        if asgn {
                            lemma_plain_run_props(s, p0, '\n');
                            lemma_plain_run_props(s, j2a, '\n');
                            lemma_find_char_props(s.subrange(p0, q1a), '=', 0);
                            lemma_find_char_props(s.subrange(j2a, q2a), '=', 0);
                            assert(s.subrange(p0, q1a).subrange(0, ma) =~= s.subrange(
                                p0,
                                p0 + ma,
                            ));
                            assert(s.subrange(p0, q1a).subrange(ma + 1, q1a - p0) =~= s.subrange(
                                p0 + ma + 1,
                                q1a,
                            ));
                            assert(find_char(s.subrange(j2a, q2a), '=', 0) == q2a - j2a);
                        }
                        if pcs {
                            lemma_plain_run_props(s, p0, '\n');
                            lemma_find_char_props(
                                s.subrange(p0, plain_run(s, p0, '\n')),
                                '=',
                                0,
                            );
                            assert(find_char(s.subrange(p0, plain_run(s, p0, '\n')), '=', 0)
                                == plain_run(s, p0, '\n') - p0);
                        }
                        if has_seq {
                            let lo = wseq_start(s, p0, jg);
                            let hi = wseq_end(s, p0, jg);
                            let m = find_char(s.subrange(lo, hi), '=', 0);
                            lemma_plain_run_props(s, lo, '\n');
                            lemma_find_char_props(s.subrange(lo, hi), '=', 0);
                            if jg < gna {
                                assert(has_assign_eq(s, p0, jg));
                                assert(s.subrange(lo, hi).subrange(0, m) =~= s.subrange(
                                    lo,
                                    lo + m,
                                ));
                                assert(s.subrange(lo, hi).subrange(m + 1, hi - lo) =~= s.subrange(
                                    lo + m + 1,
                                    hi,
                                ));
                            } else {
                                assert(!has_assign_eq(s, p0, gna));
                            }
                        }
                    }
                    match try_word_to_assignment(w) {
                        Ok(assignment) => {
                            let ghost pre_assign = command.assignments@;
                            command.assignments.push(assignment);
                            proof {
                                if has_seq {
                                    assert(command.assignments@.drop_last() =~= pre_assign);
                                    assert(jg < gna);
                                    jg = jg + 1;
                                }
                            }
                        },
                        Err(cmd_word) => {
                            proof {
                                if has_seq {
                                    assert(jg == gna);
                                }
                            }
                            command.command = Some(cmd_word);
                            self.advance_shell();
                            have_command = true;
                            break;
                        },
                    }
                },
                _ => {
                    let ropt = match self.parse_redirection_opt() {
                        Ok(x) => x,
                        Err(e) => return Err(e),
                    };
                    match ropt {
                        Some(redirection) => {
                            if fuel == 0 {
                                return Err(ParseError::LimitExceeded);
                            }
                            fuel = fuel - 1;
                            command.redirections.push(redirection);
                        },
                        None => {
                            break;
                        },
                    }
                },
            }
            self.advance_shell();
        }
        if have_command {
            // Phase 2: arguments and further redirections.
            let ghost mut jg2: nat = 0;
            loop
                invariant_except_break
                    self.wf(),
                    self.src() == s,
                    s == old(self).src(),
                    self.depth == d0,
                    d0 == old(self).depth,
                    old(self).lexer.pos <= self.lexer.pos,
                    p0 == old(self).lexer.pos as int,
                    bare == (old(self).shell_lookahead == ShellToken::WordStart
                        && bare_command_at(s, p0)),
                    simple_command_wf(command),
                    command.command is Some,
                    bare ==> fuel == usize::MAX - 1,
                    asgn ==> fuel == usize::MAX - 2,
                    asgn == (old(self).shell_lookahead == ShellToken::WordStart
                        && assign_then_command_at(s, p0)),
                    q1a == plain_run(s, p0, '\n'),
                    ma == find_char(s.subrange(p0, q1a), '=', 0),
                    j2a == token_start(s, q1a),
                    q2a == plain_run(s, j2a, '\n'),
                    bare ==> {
                        &&& (command.command matches Some(w) && single_literal_word(
                            w,
                            s.subrange(p0, plain_run(s, p0, '\n')),
                        ))
                        &&& command.assignments@.len() == 0
                        &&& command.arguments@.len() == 0
                        &&& command.redirections@.len() == 0
                        &&& shell_token_matches(
                            s,
                            token_start(s, plain_run(s, p0, '\n')),
                            self.shell_lookahead,
                        )
                        &&& self.lexer.pos as int == next_tok_end(s, plain_run(s, p0, '\n'))
                    },
                    asgn ==> {
                        &&& command.assignments@.len() == 1
                        &&& command.assignments@[0].name@ == s.subrange(p0, p0 + ma)
                        &&& single_literal_word(
                            command.assignments@[0].value,
                            s.subrange(p0 + ma + 1, q1a),
                        )
                        &&& (command.command matches Some(w) && single_literal_word(
                            w,
                            s.subrange(j2a, q2a),
                        ))
                        &&& command.arguments@.len() == 0
                        &&& command.redirections@.len() == 0
                        &&& shell_token_matches(s, token_start(s, q2a), self.shell_lookahead)
                        &&& self.lexer.pos as int == next_tok_end(s, q2a)
                    },
                    has_seq == (old(self).shell_lookahead == ShellToken::WordStart && exists|
                        na: nat,
                        nb: nat,
                    | word_seq_command_at(s, p0, na, nb)),
                    has_seq ==> word_seq_command_at(s, p0, gna, gnb),
                    has_seq ==> q1a + gna + gnb <= s.len() && 1 <= q1a,
                    s.len() <= usize::MAX,
                s.len() <= usize::MAX,
                    pcs == (old(self).shell_lookahead == ShellToken::WordStart && d0 >= 1
                        && open_subst_after_word_at(s, p0)),
                    pcs ==> {
                        &&& fuel == usize::MAX - 1
                        &&& shell_token_matches(
                            s,
                            token_start(s, plain_run(s, p0, '\n')),
                            self.shell_lookahead,
                        )
                        &&& self.lexer.pos as int == next_tok_end(s, plain_run(s, p0, '\n'))
                    },
                    has_seq ==> {
                        &&& jg2 <= gnb
                        &&& fuel == usize::MAX - gna - 1 - jg2
                        &&& command.redirections@.len() == 0
                        &&& command.assignments@.len() == gna
                        &&& (forall|k: int|
                            0 <= k < gna ==> {
                                let lo = wseq_start(s, p0, k as nat);
                                let hi = wseq_end(s, p0, k as nat);
                                let m = find_char(s.subrange(lo, hi), '=', 0);
                                &&& (#[trigger] command.assignments@[k]).name@ == s.subrange(
                                    lo,
                                    lo + m,
                                )
                                &&& single_literal_word(
                                    command.assignments@[k].value,
                                    s.subrange(lo + m + 1, hi),
                                )
                            })
                        &&& (command.command matches Some(w) && single_literal_word(
                            w,
                            s.subrange(wseq_start(s, p0, gna), wseq_end(s, p0, gna)),
                        ))
                        &&& command.arguments@.len() == jg2
                        &&& (forall|k: int|
                            0 <= k < jg2 ==> single_literal_word(
                                #[trigger] command.arguments@[k],
                                s.subrange(
                                    wseq_start(s, p0, (gna + 1 + k) as nat),
                                    wseq_end(s, p0, (gna + 1 + k) as nat),
                                ),
                            ))
                        &&& more_words(s, wseq_end(s, p0, (gna + jg2) as nat), (gnb - jg2) as nat)
                        &&& shell_token_matches(
                            s,
                            token_start(s, wseq_end(s, p0, (gna + jg2) as nat)),
                            self.shell_lookahead,
                        )
                        &&& self.lexer.pos as int == next_tok_end(
                            s,
                            wseq_end(s, p0, (gna + jg2) as nat),
                        )
                    },

                ensures
                    self.wf(),
                    self.src() == s,
                    s == old(self).src(),
                    self.depth == d0,
                    d0 == old(self).depth,
                    old(self).lexer.pos <= self.lexer.pos,
                    p0 == old(self).lexer.pos as int,
                    bare == (old(self).shell_lookahead == ShellToken::WordStart
                        && bare_command_at(s, p0)),
                    simple_command_wf(command),
                    command.command is Some,
                    asgn == (old(self).shell_lookahead == ShellToken::WordStart
                        && assign_then_command_at(s, p0)),
                    q1a == plain_run(s, p0, '\n'),
                    ma == find_char(s.subrange(p0, q1a), '=', 0),
                    j2a == token_start(s, q1a),
                    q2a == plain_run(s, j2a, '\n'),
                    bare ==> {
                        &&& (command.command matches Some(w) && single_literal_word(
                            w,
                            s.subrange(p0, plain_run(s, p0, '\n')),
                        ))
                        &&& command.assignments@.len() == 0
                        &&& command.arguments@.len() == 0
                        &&& command.redirections@.len() == 0
                        &&& shell_token_matches(
                            s,
                            token_start(s, plain_run(s, p0, '\n')),
                            self.shell_lookahead,
                        )
                        &&& self.lexer.pos as int == next_tok_end(s, plain_run(s, p0, '\n'))
                    },
                    asgn ==> {
                        &&& command.assignments@.len() == 1
                        &&& command.assignments@[0].name@ == s.subrange(p0, p0 + ma)
                        &&& single_literal_word(
                            command.assignments@[0].value,
                            s.subrange(p0 + ma + 1, q1a),
                        )
                        &&& (command.command matches Some(w) && single_literal_word(
                            w,
                            s.subrange(j2a, q2a),
                        ))
                        &&& command.arguments@.len() == 0
                        &&& command.redirections@.len() == 0
                        &&& shell_token_matches(s, token_start(s, q2a), self.shell_lookahead)
                        &&& self.lexer.pos as int == next_tok_end(s, q2a)
                    },
                    has_seq == (old(self).shell_lookahead == ShellToken::WordStart && exists|
                        na: nat,
                        nb: nat,
                    | word_seq_command_at(s, p0, na, nb)),
                    has_seq ==> word_seq_command_at(s, p0, gna, gnb),
                    has_seq ==> q1a + gna + gnb <= s.len() && 1 <= q1a,
                    s.len() <= usize::MAX,
                s.len() <= usize::MAX,
                    pcs == (old(self).shell_lookahead == ShellToken::WordStart && d0 >= 1
                        && open_subst_after_word_at(s, p0)),
                    !pcs,
                    has_seq ==> {
                        &&& jg2 == gnb
                        &&& command.redirections@.len() == 0
                        &&& command.assignments@.len() == gna
                        &&& (forall|k: int|
                            0 <= k < gna ==> {
                                let lo = wseq_start(s, p0, k as nat);
                                let hi = wseq_end(s, p0, k as nat);
                                let m = find_char(s.subrange(lo, hi), '=', 0);
                                &&& (#[trigger] command.assignments@[k]).name@ == s.subrange(
                                    lo,
                                    lo + m,
                                )
                                &&& single_literal_word(
                                    command.assignments@[k].value,
                                    s.subrange(lo + m + 1, hi),
                                )
                            })
                        &&& (command.command matches Some(w) && single_literal_word(
                            w,
                            s.subrange(wseq_start(s, p0, gna), wseq_end(s, p0, gna)),
                        ))
                        &&& command.arguments@.len() == gnb
                        &&& (forall|k: int|
                            0 <= k < gnb ==> single_literal_word(
                                #[trigger] command.arguments@[k],
                                s.subrange(
                                    wseq_start(s, p0, (gna + 1 + k) as nat),
                                    wseq_end(s, p0, (gna + 1 + k) as nat),
                                ),
                            ))
                    },

                decreases fuel,
            {
                match self.shell_lookahead {
                    ShellToken::WordStart => {
                        if fuel == 0 {
                            return Err(ParseError::LimitExceeded);
                        }
                        fuel = fuel - 1;
                        proof {
                            if has_seq {
                                assert(jg2 < gnb);
                                lemma_plain_run_props(
                                    s,
                                    wseq_start(s, p0, (gna + 1 + jg2) as nat),
                                    '\n',
                                );
                            }
                        }
                        let wopt = match self.parse_word_until(WordToken::EOF, true) {
                            Ok(w) => w,
                            Err(e) => return Err(e),
                        };
                        match wopt {
                            Some(w) => {
                                let ghost pre_args = command.arguments@;
                                command.arguments.push(w);
                                proof {
                                    if has_seq {
                                        assert(command.arguments@.drop_last() =~= pre_args);
                                        jg2 = jg2 + 1;
                                    }
                                }
                            },
                            None => {
                                return Err(ParseError::SyntaxError { position: self.lexer.pos });
                            },
                        }
                    },
                    _ => {
                        let ropt = match self.parse_redirection_opt() {
                            Ok(x) => x,
                            Err(e) => return Err(e),
                        };
                        match ropt {
                            Some(redirection) => {
                                if fuel == 0 {
                                    return Err(ParseError::LimitExceeded);
                                }
                                fuel = fuel - 1;
                                command.redirections.push(redirection);
                            },
                            None => {
                                break;
                            },
                        }
                    },
                }
                self.advance_shell();
            }
        }
        if command.command.is_none() && command.assignments.len() == 0 && command.redirections.len()
            == 0 {
            return Err(ParseError::SyntaxError { position: self.lexer.pos });
        }
        proof {
            if has_seq {
                assert(word_seq_command_result(command, s, p0, gna, gnb));
            }
            assert forall|na: nat, nb: nat|
                old(self).shell_lookahead == ShellToken::WordStart && word_seq_command_at(
                    s,
                    p0,
                    na,
                    nb,
                ) implies na == gna && nb == gnb by {
                lemma_plain_run_props(s, p0, '\n');
                lemma_more_words_unique(s, q1a, (na + nb) as nat, (gna + gnb) as nat);
                if na < gna {
                    assert(has_assign_eq(s, p0, na));
                } else if gna < na {
                    assert(has_assign_eq(s, p0, gna));
                }
            }
        }
        Ok(command)
    }

    /// Grammar hook for compound commands (`if`, `while`, `case`, function
    /// bodies); this front end recognizes none yet, so it never consumes
    /// anything.
    pub fn parse_compound_command(&mut self) -> (r: Option<CompoundCommand>)
        requires
            old(self).wf(),
        ensures
            *final(self) == *old(self),
            r is None,
    {
        None
    }

    /// Parse one command of any shape; today that is always a simple
    /// command.
    pub fn parse_command(&mut self) -> (r: Result<Command, ParseError>)
        requires
            old(self).wf(),
        ensures
            final(self).wf(),
            final(self).src() == old(self).src(),
            final(self).depth == old(self).depth,
            old(self).lexer.pos <= final(self).lexer.pos,
            (r matches Ok(c) ==> command_wf(c)),
            (old(self).shell_lookahead == ShellToken::WordStart && bare_command_at(
                old(self).src(),
                old(self).lexer.pos as int,
            ) ==> {
                let s = old(self).src();
                let p = old(self).lexer.pos as int;
                let q = plain_run(s, p, '\n');
                &&& (r matches Ok(c) && (c matches Command::SimpleCommand(sc)
                    && bare_command_result(sc, s, p)))
                &&& shell_token_matches(s, token_start(s, q), final(self).shell_lookahead)
                &&& final(self).lexer.pos as int == next_tok_end(s, q)
            }),
            (old(self).shell_lookahead == ShellToken::WordStart && old(self).depth >= 1
                && open_subst_after_word_at(old(self).src(), old(self).lexer.pos as int) ==> r
                == Err::<Command, ParseError>(ParseError::UnterminatedSubstitution)),
        decreases self.depth, 6int,
    {
        if let Some(compound) = self.parse_compound_command() {
            return Ok(Command::CompoundCommand(compound));
        }
        let sc = match self.parse_simple_command() {
            Ok(sc) => sc,
            Err(e) => return Err(e),
        };
        Ok(Command::SimpleCommand(sc))
    }

    /// Parse a pipeline: one command, then further commands after each `|`.
    /// The result always holds at least one command, in source order.
    pub fn parse_pipeline(&mut self) -> (r: Result<Pipeline, ParseError>)
        requires
            old(self).wf(),
        ensures
            final(self).wf(),
            final(self).src() == old(self).src(),
            final(self).depth == old(self).depth,
            old(self).lexer.pos <= final(self).lexer.pos,
            (r matches Ok(p) ==> pipeline_wf(p)),
            (old(self).shell_lookahead == ShellToken::WordStart && bare_command_at(
                old(self).src(),
                old(self).lexer.pos as int,
            ) && next_tok(old(self).src(), plain_run(old(self).src(), old(self).lexer.pos as int, '\n'))
                != ShellToken::Pipe ==> {
                let s = old(self).src();
                let p = old(self).lexer.pos as int;
                let q = plain_run(s, p, '\n');
                &&& (r matches Ok(pl) && pl.commands@.len() == 1 && (pl.commands@[0]
                    matches Command::SimpleCommand(sc) && bare_command_result(sc, s, p)))
                &&& shell_token_matches(s, token_start(s, q), final(self).shell_lookahead)
                &&& final(self).lexer.pos as int == next_tok_end(s, q)
            }),
            (old(self).shell_lookahead == ShellToken::WordStart && old(self).depth >= 1
                && open_subst_after_word_at(old(self).src(), old(self).lexer.pos as int) ==> r
                == Err::<Pipeline, ParseError>(ParseError::UnterminatedSubstitution)),
            (old(self).shell_lookahead == ShellToken::WordStart && pipe2_at(
                old(self).src(),
                old(self).lexer.pos as int,
            ) ==> {
                let s = old(self).src();
                let p = old(self).lexer.pos as int;
                let p2 = token_start(s, next_tok_end(s, plain_run(s, p, '\n')));
                r matches Ok(pl) && {
                    &&& pl.commands@.len() == 2
                    &&& (pl.commands@[0] matches Command::SimpleCommand(sc)
                        && bare_command_result(sc, s, p))
                    &&& (pl.commands@[1] matches Command::SimpleCommand(sc2)
                        && bare_command_result(sc2, s, p2))
                }
            }),
        decreases self.depth, 7int,
    {
        let ghost s = self.src();
        let ghost d0 = self.depth;
        let ghost p0 = self.lexer.pos as int;
        let ghost bare = self.shell_lookahead == ShellToken::WordStart && bare_command_at(s, p0)
            && next_tok(s, plain_run(s, p0, '\n')) != ShellToken::Pipe;
        let ghost posu = self.shell_lookahead == ShellToken::WordStart && d0 >= 1
            && open_subst_after_word_at(s, p0);
        let ghost ptwo = self.shell_lookahead == ShellToken::WordStart && pipe2_at(s, p0);
        let ghost q1p = plain_run(s, p0, '\n');
        let ghost p2p = token_start(s, next_tok_end(s, q1p));
        let ghost q2p = plain_run(s, p2p, '\n');
        let mut commands: Vec<Command> = Vec::new();
        let c = match self.parse_command() {
            Ok(c) => c,
            Err(e) => return Err(e),
        };
        commands.push(c);
        let mut fuel: usize = usize::MAX;
        while self.shell_lookahead == ShellToken::Pipe
            invariant
                self.wf(),
                self.src() == s,
                s == old(self).src(),
                self.depth == d0,
                d0 == old(self).depth,
                old(self).lexer.pos <= self.lexer.pos,
                p0 == old(self).lexer.pos as int,
                bare == (old(self).shell_lookahead == ShellToken::WordStart && bare_command_at(
                    s,
                    p0,
                ) && next_tok(s, plain_run(s, p0, '\n')) != ShellToken::Pipe),
                posu == (old(self).shell_lookahead == ShellToken::WordStart && d0 >= 1
                    && open_subst_after_word_at(s, p0)),
                !posu,
                ptwo == (old(self).shell_lookahead == ShellToken::WordStart && pipe2_at(s, p0)),
                q1p == plain_run(s, p0, '\n'),
                p2p == token_start(s, next_tok_end(s, q1p)),
                q2p == plain_run(s, p2p, '\n'),
                ptwo ==> ({
                    &&& fuel == usize::MAX
                    &&& commands@.len() == 1
                    &&& (commands@[0] matches Command::SimpleCommand(sc) && bare_command_result(
                        sc,
                        s,
                        p0,
                    ))
                    &&& shell_token_matches(s, token_start(s, q1p), self.shell_lookahead)
                    &&& self.lexer.pos as int == next_tok_end(s, q1p)
                } || {
                    &&& fuel == usize::MAX - 1
                    &&& commands@.len() == 2
                    &&& (commands@[0] matches Command::SimpleCommand(sc) && bare_command_result(
                        sc,
                        s,
                        p0,
                    ))
                    &&& (commands@[1] matches Command::SimpleCommand(sc2)
                        && bare_command_result(sc2, s, p2p))
                    &&& shell_token_matches(s, token_start(s, q2p), self.shell_lookahead)
                    &&& self.lexer.pos as int == next_tok_end(s, q2p)
                }),
                commands@.len() >= 1,
                forall|k: int| 0 <= k < commands@.len() ==> command_wf(#[trigger] commands@[k]),
                bare ==> {
                    &&& commands@.len() == 1
                    &&& (commands@[0] matches Command::SimpleCommand(sc) && bare_command_result(
                        sc,
                        s,
                        p0,
                    ))
                    &&& shell_token_matches(
                        s,
                        token_start(s, plain_run(s, p0, '\n')),
                        self.shell_lookahead,
                    )
                    &&& self.lexer.pos as int == next_tok_end(s, plain_run(s, p0, '\n'))
                },
            decreases fuel,
        {
            if fuel == 0 {
                return Err(ParseError::LimitExceeded);
            }
            fuel = fuel - 1;
            self.advance_shell();
            self.skip_linebreak();
            let c2 = match self.parse_command() {
                Ok(c) => c,
                Err(e) => return Err(e),
            };
            let ghost pre_cmds = commands@;
            commands.push(c2);
            proof {
                if ptwo {
                    assert(commands@.drop_last() =~= pre_cmds);
                }
            }
        }
        Ok(Pipeline { commands })
    }

    /// Parse an and-or chain: pipelines joined by `&&` / `||`.  Every
    /// element but the last carries the operator that follows it; the last
    /// carries the `End` sentinel, and the chain is never marked
    /// asynchronous here.
    ///
    /// The contract pins a lone command word, and the two-word chain
    /// `a && b`, where the first element carries `And` and the second the
    /// sentinel: the pairing of each pipeline with the operator that
    /// follows it.
    pub fn parse_and_or(&mut self) -> (r: Result<Conjunction, ParseError>)
        requires
            old(self).wf(),
        ensures
            final(self).wf(),
            final(self).src() == old(self).src(),
            final(self).depth == old(self).depth,
            old(self).lexer.pos <= final(self).lexer.pos,
            (r matches Ok(c) ==> conjunction_wf(c) && !c.is_async),
            (old(self).shell_lookahead == ShellToken::WordStart && bare_command_at(
                old(self).src(),
                old(self).lexer.pos as int,
            ) && bare_follow_stops(old(self).src(), old(self).lexer.pos as int) ==> {
                let s = old(self).src();
                let p = old(self).lexer.pos as int;
                let q = plain_run(s, p, '\n');
                &&& (r matches Ok(c) && bare_conjunction_result(c, s, p) && !c.is_async)
                &&& shell_token_matches(s, token_start(s, q), final(self).shell_lookahead)
                &&& final(self).lexer.pos as int == next_tok_end(s, q)
            }),
            (old(self).shell_lookahead == ShellToken::WordStart && chain2_at(
                old(self).src(),
                old(self).lexer.pos as int,
            ) ==> {
                let s = old(self).src();
                let p = old(self).lexer.pos as int;
                let p2 = token_start(s, next_tok_end(s, plain_run(s, p, '\n')));
                r matches Ok(c) && {
                    &&& !c.is_async
                    &&& c.elements@.len() == 2
                    &&& c.elements@[0].1 == LogicalOp::And
                    &&& c.elements@[0].0.commands@.len() == 1
                    &&& (c.elements@[0].0.commands@[0] matches Command::SimpleCommand(sc)
                        && bare_command_result(sc, s, p))
                    &&& c.elements@[1].1 == LogicalOp::End
                    &&& c.elements@[1].0.commands@.len() == 1
                    &&& (c.elements@[1].0.commands@[0] matches Command::SimpleCommand(sc2)
                        && bare_command_result(sc2, s, p2))
                }
            }),
            (forall|n: nat|
                (old(self).shell_lookahead == ShellToken::WordStart && and_or_chain_at(
                    old(self).src(),
                    old(self).lexer.pos as int,
                    n,
                )) ==> (r matches Ok(c) && and_or_chain_result(
                    c,
                    old(self).src(),
                    old(self).lexer.pos as int,
                    n,
                ))),
            (old(self).shell_lookahead == ShellToken::WordStart && old(self).depth >= 1
                && open_subst_after_word_at(old(self).src(), old(self).lexer.pos as int) ==> r
                == Err::<Conjunction, ParseError>(ParseError::UnterminatedSubstitution)),
        decreases self.depth, 8int,
    {
        let ghost s = self.src();
        let ghost d0 = self.depth;
        let ghost p0 = self.lexer.pos as int;
        let ghost bare = self.shell_lookahead == ShellToken::WordStart && bare_command_at(s, p0)
            && bare_follow_stops(s, p0);
        let ghost chain = self.shell_lookahead == ShellToken::WordStart && chain2_at(s, p0);
        let ghost q1c = plain_run(s, p0, '\n');
        let ghost p2c = token_start(s, next_tok_end(s, q1c));
        let ghost q2c = plain_run(s, p2c, '\n');
        let ghost hc = self.shell_lookahead == ShellToken::WordStart && exists|n: nat|
            and_or_chain_at(s, p0, n);
        let ghost gcn: nat = if hc {
            choose|n: nat| and_or_chain_at(s, p0, n)
        } else {
            0nat
        };
        let ghost mut cj: nat = 0;
        let ghost posu = self.shell_lookahead == ShellToken::WordStart && d0 >= 1
            && open_subst_after_word_at(s, p0);
        let chars_len = self.lexer.chars.len();
        proof {
            assert(s.len() <= usize::MAX);
            if hc {
                lemma_plain_run_props(s, p0, '\n');
                lemma_chain_more_len(s, q1c, gcn);
            }
        }
        let mut last = match self.parse_pipeline() {
            Ok(p) => p,
            Err(e) => return Err(e),
        };
        let mut elements: Vec<(Pipeline, LogicalOp)> = Vec::new();
        let mut fuel: usize = usize::MAX;
        loop
            invariant_except_break
                self.wf(),
                self.src() == s,
                s == old(self).src(),
                self.depth == d0,
                d0 == old(self).depth,
                old(self).lexer.pos <= self.lexer.pos,
                p0 == old(self).lexer.pos as int,
                bare == (old(self).shell_lookahead == ShellToken::WordStart && bare_command_at(
                    s,
                    p0,
                ) && bare_follow_stops(s, p0)),
                bare ==> fuel == usize::MAX,
                bare ==> {
                    &&& elements@.len() == 0
                    &&& last.commands@.len() == 1
                    &&& (last.commands@[0] matches Command::SimpleCommand(sc)
                        && bare_command_result(sc, s, p0))
                    &&& shell_token_matches(
                        s,
                        token_start(s, plain_run(s, p0, '\n')),
                        self.shell_lookahead,
                    )
                    &&& self.lexer.pos as int == next_tok_end(s, plain_run(s, p0, '\n'))
                },
                chain == (old(self).shell_lookahead == ShellToken::WordStart && chain2_at(
                    s,
                    p0,
                )),
                q1c == plain_run(s, p0, '\n'),
                p2c == token_start(s, next_tok_end(s, q1c)),
                q2c == plain_run(s, p2c, '\n'),
                chain ==> ({
                    &&& fuel == usize::MAX
                    &&& elements@.len() == 0
                    &&& last.commands@.len() == 1
                    &&& (last.commands@[0] matches Command::SimpleCommand(sc)
                        && bare_command_result(sc, s, p0))
                    &&& shell_token_matches(s, token_start(s, q1c), self.shell_lookahead)
                    &&& self.lexer.pos as int == next_tok_end(s, q1c)
                } || {
                    &&& fuel == usize::MAX - 1
                    &&& elements@.len() == 1
                    &&& elements@[0].1 == LogicalOp::And
                    &&& elements@[0].0.commands@.len() == 1
                    &&& (elements@[0].0.commands@[0] matches Command::SimpleCommand(sc)
                        && bare_command_result(sc, s, p0))
                    &&& last.commands@.len() == 1
                    &&& (last.commands@[0] matches Command::SimpleCommand(sc2)
                        && bare_command_result(sc2, s, p2c))
                    &&& shell_token_matches(s, token_start(s, q2c), self.shell_lookahead)
                    &&& self.lexer.pos as int == next_tok_end(s, q2c)
                }),
                posu == (old(self).shell_lookahead == ShellToken::WordStart && d0 >= 1
                    && open_subst_after_word_at(s, p0)),
                !posu,
                hc == (old(self).shell_lookahead == ShellToken::WordStart && exists|n: nat|
                    and_or_chain_at(s, p0, n)),
                hc ==> and_or_chain_at(s, p0, gcn),
                hc ==> q1c + gcn <= s.len() && 1 <= q1c,
                s.len() <= usize::MAX,
                hc ==> {
                    &&& cj <= gcn
                    &&& fuel == usize::MAX - cj
                    &&& elements@.len() == cj
                    &&& (forall|k: int|
                        0 <= k < cj ==> {
                            let wp = if k == 0 {
                                p0
                            } else {
                                chain_start(s, q1c, k as nat)
                            };
                            &&& (#[trigger] elements@[k]).0.commands@.len() == 1
                            &&& (elements@[k].0.commands@[0] matches Command::SimpleCommand(sc)
                                && bare_command_result(sc, s, wp))
                            &&& elements@[k].1 == (if chain_op(s, q1c, (k + 1) as nat)
                                == ShellToken::AndIf {
                                LogicalOp::And
                            } else {
                                LogicalOp::Or
                            })
                        })
                    &&& last.commands@.len() == 1
                    &&& (last.commands@[0] matches Command::SimpleCommand(sc)
                        && bare_command_result(
                        sc,
                        s,
                        if cj == 0 {
                            p0
                        } else {
                            chain_start(s, q1c, cj)
                        },
                    ))
                    &&& shell_token_matches(
                        s,
                        token_start(s, chain_end(s, q1c, cj)),
                        self.shell_lookahead,
                    )
                    &&& self.lexer.pos as int == next_tok_end(s, chain_end(s, q1c, cj))
                    &&& chain_more(s, chain_end(s, q1c, cj), (gcn - cj) as nat)
                },
                pipeline_wf(last),
                forall|k: int|
                    0 <= k < elements@.len() ==> pipeline_wf((#[trigger] elements@[k]).0),
                forall|k: int|
                    0 <= k < elements@.len() ==> (#[trigger] elements@[k]).1 != LogicalOp::End,
            ensures
                self.wf(),
                self.src() == s,
                s == old(self).src(),
                self.depth == d0,
                d0 == old(self).depth,
                old(self).lexer.pos <= self.lexer.pos,
                p0 == old(self).lexer.pos as int,
                bare == (old(self).shell_lookahead == ShellToken::WordStart && bare_command_at(
                    s,
                    p0,
                ) && bare_follow_stops(s, p0)),
                bare ==> {
                    &&& elements@.len() == 0
                    &&& last.commands@.len() == 1
                    &&& (last.commands@[0] matches Command::SimpleCommand(sc)
                        && bare_command_result(sc, s, p0))
                    &&& shell_token_matches(
                        s,
                        token_start(s, plain_run(s, p0, '\n')),
                        self.shell_lookahead,
                    )
                    &&& self.lexer.pos as int == next_tok_end(s, plain_run(s, p0, '\n'))
                },
                chain == (old(self).shell_lookahead == ShellToken::WordStart && chain2_at(
                    s,
                    p0,
                )),
                q1c == plain_run(s, p0, '\n'),
                p2c == token_start(s, next_tok_end(s, q1c)),
                q2c == plain_run(s, p2c, '\n'),
                chain ==> {
                    &&& elements@.len() == 1
                    &&& elements@[0].1 == LogicalOp::And
                    &&& elements@[0].0.commands@.len() == 1
                    &&& (elements@[0].0.commands@[0] matches Command::SimpleCommand(sc)
                        && bare_command_result(sc, s, p0))
                    &&& last.commands@.len() == 1
                    &&& (last.commands@[0] matches Command::SimpleCommand(sc2)
                        && bare_command_result(sc2, s, p2c))
                },
                posu == (old(self).shell_lookahead == ShellToken::WordStart && d0 >= 1
                    && open_subst_after_word_at(s, p0)),
                !posu,
                hc == (old(self).shell_lookahead == ShellToken::WordStart && exists|n: nat|
                    and_or_chain_at(s, p0, n)),
                hc ==> and_or_chain_at(s, p0, gcn),
                hc ==> q1c + gcn <= s.len() && 1 <= q1c,
                s.len() <= usize::MAX,
                hc ==> {
                    &&& cj == gcn
                    &&& elements@.len() == gcn
                    &&& (forall|k: int|
                        0 <= k < gcn ==> {
                            let wp = if k == 0 {
                                p0
                            } else {
                                chain_start(s, q1c, k as nat)
                            };
                            &&& (#[trigger] elements@[k]).0.commands@.len() == 1
                            &&& (elements@[k].0.commands@[0] matches Command::SimpleCommand(sc)
                                && bare_command_result(sc, s, wp))
                            &&& elements@[k].1 == (if chain_op(s, q1c, (k + 1) as nat)
                                == ShellToken::AndIf {
                                LogicalOp::And
                            } else {
                                LogicalOp::Or
                            })
                        })
                    &&& last.commands@.len() == 1
                    &&& (last.commands@[0] matches Command::SimpleCommand(sc)
                        && bare_command_result(
                        sc,
                        s,
                        if gcn == 0 {
                            p0
                        } else {
                            chain_start(s, q1c, gcn)
                        },
                    ))
                },
                pipeline_wf(last),
                forall|k: int|
                    0 <= k < elements@.len() ==> pipeline_wf((#[trigger] elements@[k]).0),
                forall|k: int|
                    0 <= k < elements@.len() ==> (#[trigger] elements@[k]).1 != LogicalOp::End,
            decreases fuel,
        {
            if fuel == 0 {
                return Err(ParseError::LimitExceeded);
            }
            fuel = fuel - 1;
            let op: LogicalOp;
            if self.shell_lookahead == ShellToken::AndIf {
                op = LogicalOp::And;
            } else if self.shell_lookahead == ShellToken::OrIf {
                op = LogicalOp::Or;
            } else {
                proof {
                    if hc {
                        assert(cj == gcn);
                    }
                }
                break;
            }
            proof {
                if hc {
                    assert(cj < gcn);
                }
            }
            self.advance_shell();
            self.skip_linebreak();
            let next = match self.parse_pipeline() {
                Ok(p) => p,
                Err(e) => return Err(e),
            };
            let ghost pre_elems = elements@;
            elements.push((last, op));
            proof {
                if hc {
                    assert(elements@.drop_last() =~= pre_elems);
                    cj = cj + 1;
                    assert(elements@[cj - 1].1 == (if chain_op(s, q1c, cj) == ShellToken::AndIf {
                        LogicalOp::And
                    } else {
                        LogicalOp::Or
                    }));
                }
            }
            last = next;
        }
        elements.push((last, LogicalOp::End));
        let conjunction = Conjunction { elements, is_async: false };
        proof {
            assert(conjunction.elements@.last().1 == LogicalOp::End);
            if hc {
                assert(and_or_chain_result(conjunction, s, p0, gcn));
            }
            assert forall|n: nat|
                old(self).shell_lookahead == ShellToken::WordStart && and_or_chain_at(
                    s,
                    p0,
                    n,
                ) implies n == gcn by {
                lemma_chain_more_unique(s, q1c, n, gcn);
            }
        }
        Ok(conjunction)
    }

    /// Parse one complete command: and-or chains separated by `;` or `&`,
    /// where `&` marks the preceding chain asynchronous.
    ///
    /// The contract pins the single-command family both bare (not
    /// asynchronous) and followed by `&` (asynchronous).
    pub fn parse_complete_command(&mut self) -> (r: Result<CompleteCommand, ParseError>)
        requires
            old(self).wf(),
        ensures
            final(self).wf(),
            final(self).src() == old(self).src(),
            final(self).depth == old(self).depth,
            old(self).lexer.pos <= final(self).lexer.pos,
            (r matches Ok(cc) ==> complete_command_wf(cc)),
            (old(self).shell_lookahead == ShellToken::WordStart && bare_command_at(
                old(self).src(),
                old(self).lexer.pos as int,
            ) && next_stops_complete(
                old(self).src(),
                plain_run(old(self).src(), old(self).lexer.pos as int, '\n'),
            ) ==> {
                let s = old(self).src();
                let p = old(self).lexer.pos as int;
                let q = plain_run(s, p, '\n');
                &&& (r matches Ok(cc) && cc.commands@.len() == 1 && bare_conjunction_result(
                    cc.commands@[0],
                    s,
                    p,
                ) && !cc.commands@[0].is_async)
                &&& shell_token_matches(s, token_start(s, q), final(self).shell_lookahead)
                &&& final(self).lexer.pos as int == next_tok_end(s, q)
            }),
            (old(self).shell_lookahead == ShellToken::WordStart && bare_command_at(
                old(self).src(),
                old(self).lexer.pos as int,
            ) && next_tok(old(self).src(), plain_run(old(self).src(), old(self).lexer.pos as int, '\n'))
                == ShellToken::And && next_stops_complete(
                old(self).src(),
                next_tok_end(old(self).src(), plain_run(old(self).src(), old(self).lexer.pos as int, '\n')),
            ) ==> {
                let s = old(self).src();
                let p = old(self).lexer.pos as int;
                let q = plain_run(s, p, '\n');
                &&& (r matches Ok(cc) && cc.commands@.len() == 1 && bare_conjunction_result(
                    cc.commands@[0],
                    s,
                    p,
                ) && cc.commands@[0].is_async)
                &&& shell_token_matches(
                    s,
                    token_start(s, next_tok_end(s, q)),
                    final(self).shell_lookahead,
                )
                &&& final(self).lexer.pos as int == next_tok_end(s, next_tok_end(s, q))
            }),
            (old(self).shell_lookahead == ShellToken::WordStart && old(self).depth >= 1
                && open_subst_after_word_at(old(self).src(), old(self).lexer.pos as int) ==> r
                == Err::<CompleteCommand, ParseError>(ParseError::UnterminatedSubstitution)),
        decreases self.depth, 9int,
    {
        let ghost s = self.src();
        let ghost d0 = self.depth;
        let ghost p0 = self.lexer.pos as int;
        let ghost q0 = plain_run(s, p0, '\n');
        let ghost bare_plain = self.shell_lookahead == ShellToken::WordStart && bare_command_at(
            s,
            p0,
        ) && next_stops_complete(s, q0);
        let ghost bare_async = self.shell_lookahead == ShellToken::WordStart && bare_command_at(
            s,
            p0,
        ) && next_tok(s, q0) == ShellToken::And && next_stops_complete(s, next_tok_end(s, q0));
        let ghost posu = self.shell_lookahead == ShellToken::WordStart && self.depth >= 1
            && open_subst_after_word_at(s, p0);
        let mut commands: Vec<Conjunction> = Vec::new();
        let mut fuel: usize = usize::MAX;
        loop
            invariant_except_break
                self.wf(),
                self.src() == s,
                s == old(self).src(),
                self.depth == d0,
                d0 == old(self).depth,
                old(self).lexer.pos <= self.lexer.pos,
                p0 == old(self).lexer.pos as int,
                q0 == plain_run(s, p0, '\n'),
                bare_plain == (old(self).shell_lookahead == ShellToken::WordStart
                    && bare_command_at(s, p0) && next_stops_complete(s, q0)),
                bare_async == (old(self).shell_lookahead == ShellToken::WordStart
                    && bare_command_at(s, p0) && next_tok(s, q0) == ShellToken::And
                    && next_stops_complete(s, next_tok_end(s, q0))),
                posu == (old(self).shell_lookahead == ShellToken::WordStart && old(self).depth
                    >= 1 && open_subst_after_word_at(s, p0)),
                posu ==> {
                    &&& fuel == usize::MAX
                    &&& commands@.len() == 0
                    &&& self.shell_lookahead == ShellToken::WordStart
                    &&& self.lexer.pos as int == p0
                    &&& self.depth >= 1
                },
                bare_plain ==> {
                    &&& fuel == usize::MAX
                    &&& commands@.len() == 0
                    &&& self.shell_lookahead == ShellToken::WordStart
                    &&& self.lexer.pos as int == p0
                },
                bare_async ==> ({
                    &&& fuel == usize::MAX
                    &&& commands@.len() == 0
                    &&& self.shell_lookahead == ShellToken::WordStart
                    &&& self.lexer.pos as int == p0
                } || {
                    &&& fuel == usize::MAX - 1
                    &&& commands@.len() == 1
                    &&& bare_conjunction_result(commands@[0], s, p0)
                    &&& commands@[0].is_async
                    &&& shell_token_matches(
                        s,
                        token_start(s, next_tok_end(s, q0)),
                        self.shell_lookahead,
                    )
                    &&& self.lexer.pos as int == next_tok_end(s, next_tok_end(s, q0))
                }),
                forall|k: int|
                    0 <= k < commands@.len() ==> conjunction_wf(#[trigger] commands@[k]),
            ensures
                self.wf(),
                self.src() == s,
                s == old(self).src(),
                self.depth == d0,
                d0 == old(self).depth,
                old(self).lexer.pos <= self.lexer.pos,
                p0 == old(self).lexer.pos as int,
                q0 == plain_run(s, p0, '\n'),
                bare_plain == (old(self).shell_lookahead == ShellToken::WordStart
                    && bare_command_at(s, p0) && next_stops_complete(s, q0)),
                bare_async == (old(self).shell_lookahead == ShellToken::WordStart
                    && bare_command_at(s, p0) && next_tok(s, q0) == ShellToken::And
                    && next_stops_complete(s, next_tok_end(s, q0))),
                posu == (old(self).shell_lookahead == ShellToken::WordStart && old(self).depth
                    >= 1 && open_subst_after_word_at(s, p0)),
                !posu,
                bare_plain ==> {
                    &&& commands@.len() == 1
                    &&& bare_conjunction_result(commands@[0], s, p0)
                    &&& !commands@[0].is_async
                    &&& shell_token_matches(s, token_start(s, q0), self.shell_lookahead)
                    &&& self.lexer.pos as int == next_tok_end(s, q0)
                },
                bare_async ==> {
                    &&& commands@.len() == 1
                    &&& bare_conjunction_result(commands@[0], s, p0)
                    &&& commands@[0].is_async
                    &&& shell_token_matches(
                        s,
                        token_start(s, next_tok_end(s, q0)),
                        self.shell_lookahead,
                    )
                    &&& self.lexer.pos as int == next_tok_end(s, next_tok_end(s, q0))
                },
                forall|k: int|
                    0 <= k < commands@.len() ==> conjunction_wf(#[trigger] commands@[k]),
            decreases fuel,
        {
            if fuel == 0 {
                return Err(ParseError::LimitExceeded);
            }
            fuel = fuel - 1;
            if self.shell_lookahead == ShellToken::Newline || self.shell_lookahead
                == ShellToken::EOF || self.shell_lookahead == ShellToken::RParen {
                break;
            }
            let mut and_or = match self.parse_and_or() {
                Ok(c) => c,
                Err(e) => return Err(e),
            };
            if self.shell_lookahead == ShellToken::And {
                and_or.is_async = true;
            }
            commands.push(and_or);
            if self.shell_lookahead == ShellToken::And || self.shell_lookahead
                == ShellToken::SemiColon {
                self.advance_shell();
            } else {
                break;
            }
        }
        Ok(CompleteCommand { commands })
    }

    /// Parse a whole program up to the terminator token: `EOF` at top
    /// level, `)` inside a command substitution, whose terminator is
    /// consumed and never leaks to the caller.  Reaching end of input while
    /// another terminator is required fails with exactly
    /// `UnterminatedSubstitution`, and the contract says so; it also pins
    /// the empty program and the one-command programs, plain and
    /// asynchronous.
    pub fn parse_program_until(&mut self, term: ShellToken) -> (r: Result<Program, ParseError>)
        requires
            old(self).wf(),
        ensures
            final(self).wf(),
            final(self).src() == old(self).src(),
            final(self).depth == old(self).depth,
            old(self).lexer.pos <= final(self).lexer.pos,
            (r matches Ok(p) ==> program_wf(p)),
            (term != ShellToken::Newline && old(self).shell_lookahead == term ==> (r matches Ok(p)
                && p.commands@.len() == 0)),
            (term != ShellToken::EOF && term != ShellToken::Newline && old(self).shell_lookahead
                == ShellToken::EOF ==> r == Err::<Program, ParseError>(
                ParseError::UnterminatedSubstitution,
            )),
            (term == ShellToken::EOF && old(self).shell_lookahead == ShellToken::WordStart
                && bare_command_at(old(self).src(), old(self).lexer.pos as int) && next_tok(
                old(self).src(),
                plain_run(old(self).src(), old(self).lexer.pos as int, '\n'),
            ) == ShellToken::EOF ==> {
                let s = old(self).src();
                let p = old(self).lexer.pos as int;
                &&& (r matches Ok(prog) && prog.commands@.len() == 1
                    && prog.commands@[0].commands@.len() == 1 && bare_conjunction_result(
                    prog.commands@[0].commands@[0],
                    s,
                    p,
                ) && !prog.commands@[0].commands@[0].is_async)
            }),
            (term == ShellToken::EOF && old(self).shell_lookahead == ShellToken::WordStart
                && bare_command_at(old(self).src(), old(self).lexer.pos as int) && next_tok(
                old(self).src(),
                plain_run(old(self).src(), old(self).lexer.pos as int, '\n'),
            ) == ShellToken::And && next_stops_complete(
                old(self).src(),
                next_tok_end(old(self).src(), plain_run(old(self).src(), old(self).lexer.pos as int, '\n')),
            ) && next_tok(
                old(self).src(),
                next_tok_end(old(self).src(), plain_run(old(self).src(), old(self).lexer.pos as int, '\n')),
            ) == ShellToken::EOF ==> {
                let s = old(self).src();
                let p = old(self).lexer.pos as int;
                &&& (r matches Ok(prog) && prog.commands@.len() == 1
                    && prog.commands@[0].commands@.len() == 1 && bare_conjunction_result(
                    prog.commands@[0].commands@[0],
                    s,
                    p,
                ) && prog.commands@[0].commands@[0].is_async)
            }),
            (term != ShellToken::WordStart && old(self).shell_lookahead == ShellToken::WordStart
                && old(self).depth >= 1 && open_subst_after_word_at(
                old(self).src(),
                old(self).lexer.pos as int,
            ) ==> r == Err::<Program, ParseError>(ParseError::UnterminatedSubstitution)),
        decreases self.depth, 10int,
    {
        let ghost s = self.src();
        let ghost d0 = self.depth;
        let ghost p0 = self.lexer.pos as int;
        let ghost q0 = plain_run(s, p0, '\n');
        let ghost t0 = self.shell_lookahead;
        let ghost prem_term = term != ShellToken::Newline && t0 == term;
        let ghost prem_eof = term != ShellToken::EOF && term != ShellToken::Newline && t0
            == ShellToken::EOF;
        let ghost prem_one = term == ShellToken::EOF && t0 == ShellToken::WordStart
            && bare_command_at(s, p0) && next_tok(s, q0) == ShellToken::EOF;
        let ghost prem_amp = term == ShellToken::EOF && t0 == ShellToken::WordStart
            && bare_command_at(s, p0) && next_tok(s, q0) == ShellToken::And && next_stops_complete(
            s,
            next_tok_end(s, q0),
        ) && next_tok(s, next_tok_end(s, q0)) == ShellToken::EOF;
        let ghost prem_osu = term != ShellToken::WordStart && t0 == ShellToken::WordStart && d0
            >= 1 && open_subst_after_word_at(s, p0);
        self.skip_linebreak();
        let mut commands: Vec<CompleteCommand> = Vec::new();
        let mut fuel: usize = usize::MAX;
        loop
            invariant_except_break
                self.wf(),
                self.src() == s,
                s == old(self).src(),
                self.depth == d0,
                d0 == old(self).depth,
                old(self).lexer.pos <= self.lexer.pos,
                p0 == old(self).lexer.pos as int,
                q0 == plain_run(s, p0, '\n'),
                t0 == old(self).shell_lookahead,
                prem_term == (term != ShellToken::Newline && t0 == term),
                prem_eof == (term != ShellToken::EOF && term != ShellToken::Newline && t0
                    == ShellToken::EOF),
                prem_one == (term == ShellToken::EOF && t0 == ShellToken::WordStart
                    && bare_command_at(s, p0) && next_tok(s, q0) == ShellToken::EOF),
                prem_amp == (term == ShellToken::EOF && t0 == ShellToken::WordStart
                    && bare_command_at(s, p0) && next_tok(s, q0) == ShellToken::And
                    && next_stops_complete(s, next_tok_end(s, q0)) && next_tok(
                    s,
                    next_tok_end(s, q0),
                ) == ShellToken::EOF),
                prem_osu == (term != ShellToken::WordStart && t0 == ShellToken::WordStart && d0
                    >= 1 && open_subst_after_word_at(s, p0)),
                prem_osu ==> {
                    &&& fuel == usize::MAX
                    &&& commands@.len() == 0
                    &&& self.shell_lookahead == t0
                    &&& self.lexer.pos as int == p0
                    &&& self.depth >= 1
                },
                prem_term || prem_eof ==> {
                    &&& fuel == usize::MAX
                    &&& commands@.len() == 0
                    &&& self.shell_lookahead == t0
                    &&& self.lexer.pos as int == p0
                },
                prem_one ==> ({
                    &&& fuel == usize::MAX
                    &&& commands@.len() == 0
                    &&& self.shell_lookahead == t0
                    &&& self.lexer.pos as int == p0
                } || {
                    &&& fuel == usize::MAX - 1
                    &&& commands@.len() == 1
                    &&& commands@[0].commands@.len() == 1
                    &&& bare_conjunction_result(commands@[0].commands@[0], s, p0)
                    &&& !commands@[0].commands@[0].is_async
                    &&& self.shell_lookahead == ShellToken::EOF
                }),
                prem_amp ==> ({
                    &&& fuel == usize::MAX
                    &&& commands@.len() == 0
                    &&& self.shell_lookahead == t0
                    &&& self.lexer.pos as int == p0
                } || {
                    &&& fuel == usize::MAX - 1
                    &&& commands@.len() == 1
                    &&& commands@[0].commands@.len() == 1
                    &&& bare_conjunction_result(commands@[0].commands@[0], s, p0)
                    &&& commands@[0].commands@[0].is_async
                    &&& self.shell_lookahead == ShellToken::EOF
                }),
                forall|k: int|
                    0 <= k < commands@.len() ==> complete_command_wf(#[trigger] commands@[k]),
            ensures
                self.wf(),
                self.src() == s,
                s == old(self).src(),
                self.depth == d0,
                d0 == old(self).depth,
                old(self).lexer.pos <= self.lexer.pos,
                p0 == old(self).lexer.pos as int,
                q0 == plain_run(s, p0, '\n'),
                t0 == old(self).shell_lookahead,
                prem_term == (term != ShellToken::Newline && t0 == term),
                prem_eof == (term != ShellToken::EOF && term != ShellToken::Newline && t0
                    == ShellToken::EOF),
                prem_one == (term == ShellToken::EOF && t0 == ShellToken::WordStart
                    && bare_command_at(s, p0) && next_tok(s, q0) == ShellToken::EOF),
                prem_amp == (term == ShellToken::EOF && t0 == ShellToken::WordStart
                    && bare_command_at(s, p0) && next_tok(s, q0) == ShellToken::And
                    && next_stops_complete(s, next_tok_end(s, q0)) && next_tok(
                    s,
                    next_tok_end(s, q0),
                ) == ShellToken::EOF),
                prem_osu == (term != ShellToken::WordStart && t0 == ShellToken::WordStart && d0
                    >= 1 && open_subst_after_word_at(s, p0)),
                !prem_osu,
                prem_term ==> commands@.len() == 0,
                prem_one ==> {
                    &&& commands@.len() == 1
                    &&& commands@[0].commands@.len() == 1
                    &&& bare_conjunction_result(commands@[0].commands@[0], s, p0)
                    &&& !commands@[0].commands@[0].is_async
                },
                prem_amp ==> {
                    &&& commands@.len() == 1
                    &&& commands@[0].commands@.len() == 1
                    &&& bare_conjunction_result(commands@[0].commands@[0], s, p0)
                    &&& commands@[0].commands@[0].is_async
                },
                !prem_eof,
                forall|k: int|
                    0 <= k < commands@.len() ==> complete_command_wf(#[trigger] commands@[k]),
            decreases fuel,
        {
            if fuel == 0 {
                return Err(ParseError::LimitExceeded);
            }
            fuel = fuel - 1;
            if self.shell_lookahead == term {
                break;
            }
            if self.shell_lookahead == ShellToken::EOF {
                return Err(ParseError::UnterminatedSubstitution);
            }
            let cc = match self.parse_complete_command() {
                Ok(cc) => cc,
                Err(e) => return Err(e),
            };
            commands.push(cc);
            self.skip_linebreak();
        }
        Ok(Program { commands })
    }

    /// Parse the whole input as a program.
    pub fn parse_program(&mut self) -> (r: Result<Program, ParseError>)
        requires
            old(self).wf(),
        ensures
            final(self).wf(),
            final(self).src() == old(self).src(),
            final(self).depth == old(self).depth,
            (r matches Ok(p) ==> program_wf(p)),
            ({
                let s = old(self).src();
                let j0 = token_start(s, old(self).lexer.pos as int);
                &&& (!io_number_at(s, j0) && shell_token_at(s, j0) == ShellToken::EOF ==> (r
                    matches Ok(prog) && prog.commands@.len() == 0))
                &&& (!io_number_at(s, j0) && shell_token_at(s, j0) == ShellToken::WordStart
                    && bare_command_at(s, j0) && next_tok(s, plain_run(s, j0, '\n'))
                    == ShellToken::EOF ==> (r matches Ok(prog) && prog.commands@.len() == 1
                    && prog.commands@[0].commands@.len() == 1 && bare_conjunction_result(
                    prog.commands@[0].commands@[0],
                    s,
                    j0,
                ) && !prog.commands@[0].commands@[0].is_async))
                &&& (!io_number_at(s, j0) && shell_token_at(s, j0) == ShellToken::WordStart
                    && bare_command_at(s, j0) && next_tok(s, plain_run(s, j0, '\n'))
                    == ShellToken::And && next_stops_complete(
                    s,
                    next_tok_end(s, plain_run(s, j0, '\n')),
                ) && next_tok(s, next_tok_end(s, plain_run(s, j0, '\n'))) == ShellToken::EOF ==> (r
                    matches Ok(prog) && prog.commands@.len() == 1
                    && prog.commands@[0].commands@.len() == 1 && bare_conjunction_result(
                    prog.commands@[0].commands@[0],
                    s,
                    j0,
                ) && prog.commands@[0].commands@[0].is_async))
            }),
            ({
                let s = old(self).src();
                let j0 = token_start(s, old(self).lexer.pos as int);
                (!io_number_at(s, j0) && shell_token_at(s, j0) == ShellToken::WordStart
                    && old(self).depth >= 1 && open_subst_after_word_at(s, j0)) ==> r == Err::<
                    Program,
                    ParseError,
                >(ParseError::UnterminatedSubstitution)
            }),
        decreases self.depth, 11int,
    {
        self.advance_shell();
        self.parse_program_until(ShellToken::EOF)
    }
}

/// One plain command word free of `=` begins at `p`, and the shell token
/// after it neither continues the command nor opens a redirection: the
/// single-word-command family, on which the whole grammar chain is pinned.
pub open spec fn bare_command_at(s: Seq<char>, p: int) -> bool {
    let q = plain_run(s, p, '\n');
    let t2 = next_tok(s, q);
    &&& plain_word_at(s, p)
    &&& (forall|k: int| p <= k < q ==> (#[trigger] s[k]) != '=')
    &&& !io_number_at(s, token_start(s, q))
    &&& t2 != ShellToken::WordStart
    &&& io_kind_of(t2) is None
    &&& t2 != ShellToken::DLess
    &&& t2 != ShellToken::DLessDash
}

/// The simple command decoded from the single-word-command family: the one
/// word as the command, nothing else.
pub open spec fn bare_command_result(sc: SimpleCommand, s: Seq<char>, p: int) -> bool {
    &&& (sc.command matches Some(w) && single_literal_word(
        w,
        s.subrange(p, plain_run(s, p, '\n')),
    ))
    &&& sc.assignments@.len() == 0
    &&& sc.arguments@.len() == 0
    &&& sc.redirections@.len() == 0
}

/// From cursor position `q`, just past a word, `n` more plain words
/// follow, each announced by a `WordStart` token, and after the last one
/// the simple command ends.
pub open spec fn more_words(s: Seq<char>, q: int, n: nat) -> bool
    decreases n,
{
    if n == 0 {
        let t2 = next_tok(s, q);
        &&& !io_number_at(s, token_start(s, q))
        &&& t2 != ShellToken::WordStart
        &&& io_kind_of(t2) is None
        &&& t2 != ShellToken::DLess
        &&& t2 != ShellToken::DLessDash
    } else {
        &&& !io_number_at(s, token_start(s, q))
        &&& next_tok(s, q) == ShellToken::WordStart
        &&& plain_word_at(s, token_start(s, q))
        &&& more_words(s, plain_run(s, token_start(s, q), '\n'), (n - 1) as nat)
    }
}

/// The start of word `k` of the word sequence whose word 0 begins at `p`.
pub open spec fn wseq_start(s: Seq<char>, p: int, k: nat) -> int
    decreases k, 0int,
{
    if k == 0 {
        p
    } else {
        token_start(s, wseq_end(s, p, (k - 1) as nat))
    }
}

/// The end of word `k` of the word sequence whose word 0 begins at `p`.
pub open spec fn wseq_end(s: Seq<char>, p: int, k: nat) -> int
    decreases k, 1int,
{
    plain_run(s, wseq_start(s, p, k), '\n')
}

/// Does word `k` of the sequence hold an `=`, making it an assignment?
pub open spec fn has_assign_eq(s: Seq<char>, p: int, k: nat) -> bool {
    find_char(s.subrange(wseq_start(s, p, k), wseq_end(s, p, k)), '=', 0) < wseq_end(s, p, k)
        - wseq_start(s, p, k)
}

/// The general word-sequence family of a simple command: `na` assignment
/// words, each holding `=`, then a command word free of `=`, then `nb`
/// argument words, then a terminator.
pub open spec fn word_seq_command_at(s: Seq<char>, p: int, na: nat, nb: nat) -> bool {
    &&& plain_word_at(s, p)
    &&& more_words(s, plain_run(s, p, '\n'), (na + nb) as nat)
    &&& (forall|k: nat| k < na ==> has_assign_eq(s, p, k))
    &&& !has_assign_eq(s, p, na)
}

/// The simple command decoded from the word-sequence family: the first
/// `na` words split at their first `=` into the assignments, in order; the
/// next word the command; the remaining words the arguments, verbatim and
/// in order; no redirections.
pub open spec fn word_seq_command_result(
    sc: SimpleCommand,
    s: Seq<char>,
    p: int,
    na: nat,
    nb: nat,
) -> bool {
    &&& sc.assignments@.len() == na
    &&& (forall|k: int|
        0 <= k < na ==> {
            let lo = wseq_start(s, p, k as nat);
            let hi = wseq_end(s, p, k as nat);
            let m = find_char(s.subrange(lo, hi), '=', 0);
            &&& (#[trigger] sc.assignments@[k]).name@ == s.subrange(lo, lo + m)
            &&& single_literal_word(sc.assignments@[k].value, s.subrange(lo + m + 1, hi))
        })
    &&& (sc.command matches Some(w) && single_literal_word(
        w,
        s.subrange(wseq_start(s, p, na), wseq_end(s, p, na)),
    ))
    &&& sc.arguments@.len() == nb
    &&& (forall|k: int|
        0 <= k < nb ==> single_literal_word(
            #[trigger] sc.arguments@[k],
            s.subrange(wseq_start(s, p, (na + 1 + k) as nat), wseq_end(s, p, (na + 1 + k) as nat)),
        ))
    &&& sc.redirections@.len() == 0
}

/// Each of `n` following words takes at least one character.
pub proof fn lemma_more_words_len(s: Seq<char>, q: int, n: nat)
    requires
        more_words(s, q, n),
        0 <= q <= s.len(),
    ensures
        q + n <= s.len(),
    decreases n,
{
    if n > 0 {
        lemma_token_start_ge(s, q);
        let j = token_start(s, q);
        lemma_plain_run_props(s, j, '\n');
        lemma_more_words_len(s, plain_run(s, j, '\n'), (n - 1) as nat);
    }
}

/// A word sequence has only one possible length.
pub proof fn lemma_more_words_unique(s: Seq<char>, q: int, n: nat, n2: nat)
    requires
        more_words(s, q, n),
        more_words(s, q, n2),
    ensures
        n == n2,
    decreases n,
{
    if n > 0 && n2 > 0 {
        lemma_more_words_unique(
            s,
            plain_run(s, token_start(s, q), '\n'),
            (n - 1) as nat,
            (n2 - 1) as nat,
        );
    }
}

/// A plain word holding `=` (an assignment) starts at `p`, and a bare
/// command word follows it: the one-assignment-one-command family.
pub open spec fn assign_then_command_at(s: Seq<char>, p: int) -> bool {
    let q1 = plain_run(s, p, '\n');
    let j2 = token_start(s, q1);
    &&& plain_word_at(s, p)
    &&& find_char(s.subrange(p, q1), '=', 0) < q1 - p
    &&& !io_number_at(s, token_start(s, q1))
    &&& shell_token_at(s, token_start(s, q1)) == ShellToken::WordStart
    &&& bare_command_at(s, j2)
}

/// The simple command decoded from the one-assignment-one-command family:
/// the first word split at its first `=`, the second word the command.
pub open spec fn assign_command_result(sc: SimpleCommand, s: Seq<char>, p: int) -> bool {
    let q1 = plain_run(s, p, '\n');
    let m = find_char(s.subrange(p, q1), '=', 0);
    let j2 = token_start(s, q1);
    let q2 = plain_run(s, j2, '\n');
    &&& sc.assignments@.len() == 1
    &&& sc.assignments@[0].name@ == s.subrange(p, p + m)
    &&& single_literal_word(sc.assignments@[0].value, s.subrange(p + m + 1, q1))
    &&& (sc.command matches Some(w) && single_literal_word(w, s.subrange(j2, q2)))
    &&& sc.arguments@.len() == 0
    &&& sc.redirections@.len() == 0
}

/// The token after the single command word continues neither a pipeline
/// nor an and-or chain.
pub open spec fn bare_follow_stops(s: Seq<char>, p: int) -> bool {
    let t2 = next_tok(s, plain_run(s, p, '\n'));
    &&& t2 != ShellToken::Pipe
    &&& t2 != ShellToken::AndIf
    &&& t2 != ShellToken::OrIf
}

/// The end of the leading run of tab characters at or after `i`.
pub open spec fn tab_run(line: Seq<char>, i: int) -> int
    decreases line.len() - i,
{
    if 0 <= i < line.len() && line[i] == '\t' {
        tab_run(line, i + 1)
    } else {
        i
    }
}

/// A line with its leading tabs removed.
pub open spec fn strip_tabs(line: Seq<char>) -> Seq<char> {
    line.subrange(tab_run(line, 0), line.len() as int)
}

/// Does a line equal to the delimiter occur at or after `i`?
pub open spec fn heredoc_closes(s: Seq<char>, i: int, delim: Seq<char>) -> bool
    decreases s.len() - i,
    via heredoc_closes_dec
{
    if !(0 <= i < s.len()) {
        false
    } else {
        let e = line_end(s, i);
        if s.subrange(i, e) == delim {
            true
        } else {
            heredoc_closes(s, e, delim)
        }
    }
}

#[via_fn]
proof fn heredoc_closes_dec(s: Seq<char>, i: int, delim: Seq<char>) {
    lemma_line_end_ge(s, i);
}

/// The here-document body: the lines from `i` strictly before the first
/// line equal to the delimiter, concatenated, each stripped of its leading
/// tabs when `strip` is set.
pub open spec fn heredoc_body(s: Seq<char>, i: int, delim: Seq<char>, strip: bool) -> Seq<char>
    decreases s.len() - i,
    via heredoc_body_dec
{
    if !(0 <= i < s.len()) {
        Seq::<char>::empty()
    } else {
        let e = line_end(s, i);
        let line = s.subrange(i, e);
        if line == delim {
            Seq::<char>::empty()
        } else {
            (if strip {
                strip_tabs(line)
            } else {
                line
            }) + heredoc_body(s, e, delim, strip)
        }
    }
}

#[via_fn]
proof fn heredoc_body_dec(s: Seq<char>, i: int, delim: Seq<char>, strip: bool) {
    lemma_line_end_ge(s, i);
}

/// The end of chained pipeline `k` of an and-or chain whose first pipeline
/// ends at `q` (pipeline 0 is the one before the first operator).
pub open spec fn chain_end(s: Seq<char>, q: int, k: nat) -> int
    decreases k, 1int,
{
    if k == 0 {
        q
    } else {
        plain_run(s, chain_start(s, q, k), '\n')
    }
}

/// The start of chained pipeline `k` (for `k >= 1`): the word after the
/// `k`-th operator.
pub open spec fn chain_start(s: Seq<char>, q: int, k: nat) -> int
    decreases k, 0int,
{
    if k == 0 {
        q
    } else {
        token_start(s, next_tok_end(s, chain_end(s, q, (k - 1) as nat)))
    }
}

/// The operator token standing between chained pipelines `k - 1` and `k`.
pub open spec fn chain_op(s: Seq<char>, q: int, k: nat) -> ShellToken {
    next_tok(s, chain_end(s, q, (k - 1) as nat))
}

/// From cursor position `q`, just past a pipeline, `n` further one-word
/// pipelines follow, each introduced by `&&` or `||`; after the last the
/// chain ends.
pub open spec fn chain_more(s: Seq<char>, q: int, n: nat) -> bool
    decreases n,
{
    if n == 0 {
        &&& !io_number_at(s, token_start(s, q))
        &&& next_tok(s, q) != ShellToken::AndIf
        &&& next_tok(s, q) != ShellToken::OrIf
    } else {
        let p2 = token_start(s, next_tok_end(s, q));
        &&& !io_number_at(s, token_start(s, q))
        &&& (next_tok(s, q) == ShellToken::AndIf || next_tok(s, q) == ShellToken::OrIf)
        &&& !io_number_at(s, token_start(s, next_tok_end(s, q)))
        &&& next_tok(s, next_tok_end(s, q)) == ShellToken::WordStart
        &&& bare_command_at(s, p2)
        &&& next_tok(s, plain_run(s, p2, '\n')) != ShellToken::Pipe
        &&& chain_more(s, plain_run(s, p2, '\n'), (n - 1) as nat)
    }
}

/// An and-or chain of `n + 1` one-word pipelines starts at `p`.
pub open spec fn and_or_chain_at(s: Seq<char>, p: int, n: nat) -> bool {
    &&& bare_command_at(s, p)
    &&& next_tok(s, plain_run(s, p, '\n')) != ShellToken::Pipe
    &&& chain_more(s, plain_run(s, p, '\n'), n)
}

/// The conjunction decoded from an and-or chain: one element per pipeline
/// in source order, each but the last carrying the operator that follows
/// it (`&&` as `And`, `||` as `Or`), the last carrying the sentinel.
pub open spec fn and_or_chain_result(c: Conjunction, s: Seq<char>, p: int, n: nat) -> bool {
    let q0 = plain_run(s, p, '\n');
    &&& !c.is_async
    &&& c.elements@.len() == n + 1
    &&& (forall|k: int|
        0 <= k < n + 1 ==> {
            let wp = if k == 0 {
                p
            } else {
                chain_start(s, q0, k as nat)
            };
            &&& (#[trigger] c.elements@[k]).0.commands@.len() == 1
            &&& (c.elements@[k].0.commands@[0] matches Command::SimpleCommand(sc)
                && bare_command_result(sc, s, wp))
        })
    &&& (forall|k: int|
        0 <= k < n ==> (#[trigger] c.elements@[k]).1 == (if chain_op(s, q0, (k + 1) as nat)
            == ShellToken::AndIf {
            LogicalOp::And
        } else {
            LogicalOp::Or
        }))
    &&& c.elements@[n as int].1 == LogicalOp::End
}

/// Each chained pipeline takes at least one character.
pub proof fn lemma_chain_more_len(s: Seq<char>, q: int, n: nat)
    requires
        chain_more(s, q, n),
        0 <= q <= s.len(),
    ensures
        q + n <= s.len(),
    decreases n,
{
    if n > 0 {
        lemma_token_start_ge(s, q);
        let j = token_start(s, q);
        let e2 = next_tok_end(s, q);
        lemma_token_start_ge(s, e2);
        let p2 = token_start(s, e2);
        lemma_plain_run_props(s, p2, '\n');
        lemma_chain_more_len(s, plain_run(s, p2, '\n'), (n - 1) as nat);
    }
}

/// An and-or chain has only one possible length.
pub proof fn lemma_chain_more_unique(s: Seq<char>, q: int, n: nat, n2: nat)
    requires
        chain_more(s, q, n),
        chain_more(s, q, n2),
    ensures
        n == n2,
    decreases n,
{
    if n > 0 && n2 > 0 {
        let p2 = token_start(s, next_tok_end(s, q));
        lemma_chain_more_unique(s, plain_run(s, p2, '\n'), (n - 1) as nat, (n2 - 1) as nat);
    }
}

/// Two bare command words joined by `|`: the two-command pipeline family,
/// on which the source order of a multi-command pipeline is pinned.
pub open spec fn pipe2_at(s: Seq<char>, p: int) -> bool {
    let q1 = plain_run(s, p, '\n');
    let p2 = token_start(s, next_tok_end(s, q1));
    &&& bare_command_at(s, p)
    &&& next_tok(s, q1) == ShellToken::Pipe
    &&& !io_number_at(s, token_start(s, next_tok_end(s, q1)))
    &&& next_tok(s, next_tok_end(s, q1)) == ShellToken::WordStart
    &&& bare_command_at(s, p2)
    &&& next_tok(s, plain_run(s, p2, '\n')) != ShellToken::Pipe
}

/// Two bare command words joined by `&&`: the two-element and-or family,
/// on which the pairing of pipelines with their following operators is
/// pinned.
pub open spec fn chain2_at(s: Seq<char>, p: int) -> bool {
    let q1 = plain_run(s, p, '\n');
    let p2 = token_start(s, next_tok_end(s, q1));
    &&& bare_command_at(s, p)
    &&& next_tok(s, q1) == ShellToken::AndIf
    &&& !io_number_at(s, token_start(s, next_tok_end(s, q1)))
    &&& next_tok(s, next_tok_end(s, q1)) == ShellToken::WordStart
    &&& bare_command_at(s, p2)
    &&& bare_follow_stops(s, p2)
}

/// A bare positional-parameter expansion followed by a plain tail: `$`
/// and one digit, then plain characters up to a word end.  The decoder
/// takes exactly one digit, so the rest of the text stays literal.
pub open spec fn digit_expansion_word_at(s: Seq<char>, w0: int) -> bool {
    let q = plain_run(s, w0 + 2, '\n');
    &&& word_token_at(s, w0) == WordToken::Dollar
    &&& (word_token_at(s, w0 + 1) matches WordToken::Char(d) && spec_is_digit(d))
    &&& (q == s.len() || spec_ends_word(s[q]))
}

/// An unclosed command substitution: a `$(` trigger whose embedded program
/// reaches the end of input without its closing `)`.
pub open spec fn open_subst_at(s: Seq<char>, w0: int) -> bool {
    &&& word_token_at(s, w0) == WordToken::CommandSubstitutionStart
    &&& !io_number_at(s, token_start(s, w0 + 2))
    &&& next_tok(s, w0 + 2) == ShellToken::EOF
}

/// A plain command word free of `=`, followed by a word opening an
/// unclosed command substitution: the family on which the fatal
/// `UnterminatedSubstitution` error is pinned end to end.
pub open spec fn open_subst_after_word_at(s: Seq<char>, p: int) -> bool {
    let q = plain_run(s, p, '\n');
    &&& plain_word_at(s, p)
    &&& (forall|k: int| p <= k < q ==> (#[trigger] s[k]) != '=')
    &&& !io_number_at(s, token_start(s, q))
    &&& next_tok(s, q) == ShellToken::WordStart
    &&& open_subst_at(s, token_start(s, q))
}

/// A token that ends a complete command without being consumed by it.
pub open spec fn stops_complete(t: ShellToken) -> bool {
    t == ShellToken::Newline || t == ShellToken::EOF || t == ShellToken::RParen
}

/// The next shell token at or after `p` ends a complete command (and is not
/// a descriptor prefix).
pub open spec fn next_stops_complete(s: Seq<char>, p: int) -> bool {
    &&& !io_number_at(s, token_start(s, p))
    &&& stops_complete(next_tok(s, p))
}

/// The conjunction decoded from the single-word-command family: one
/// pipeline of one simple command, carrying the end sentinel.
pub open spec fn bare_conjunction_result(c: Conjunction, s: Seq<char>, p: int) -> bool {
    &&& c.elements@.len() == 1
    &&& c.elements@[0].1 == LogicalOp::End
    &&& c.elements@[0].0.commands@.len() == 1
    &&& (c.elements@[0].0.commands@[0] matches Command::SimpleCommand(sc) && bare_command_result(
        sc,
        s,
        p,
    ))
}

/// The shell token that starts at or after position `p`, once blanks and
/// comments are skipped.
pub open spec fn next_tok(s: Seq<char>, p: int) -> ShellToken {
    shell_token_at(s, token_start(s, p))
}

/// The cursor position one past the shell token at or after `p`.
pub open spec fn next_tok_end(s: Seq<char>, p: int) -> int {
    shell_token_end(s, token_start(s, p))
}

/// The next shell token at or after `p` is a `WordStart` opening a plain
/// word run: the family whose target-word parse is pinned exactly.
pub open spec fn pinned_target_at(s: Seq<char>, p: int) -> bool {
    let j = token_start(s, p);
    &&& !io_number_at(s, j)
    &&& shell_token_at(s, j) == ShellToken::WordStart
    &&& plain_word_at(s, j)
}

/// The word holding exactly the plain run that starts the next word at or
/// after `p`.
pub open spec fn target_word_is(w: Word, s: Seq<char>, p: int) -> bool {
    let j = token_start(s, p);
    single_literal_word(w, s.subrange(j, plain_run(s, j, '\n')))
}

/// The operator kind that each of the seven IO redirection operator tokens
/// selects; any other token selects none.
pub open spec fn io_kind_of(t: ShellToken) -> Option<IORedirectionKind> {
    match t {
        ShellToken::Greater => Some(IORedirectionKind::RedirectOutput),
        ShellToken::Clobber => Some(IORedirectionKind::RedirectOutputClobber),
        ShellToken::DGreat => Some(IORedirectionKind::RedirectOutputAppend),
        ShellToken::GreatAnd => Some(IORedirectionKind::DuplicateOutput),
        ShellToken::Less => Some(IORedirectionKind::RedirectInput),
        ShellToken::LessAnd => Some(IORedirectionKind::DuplicateInput),
        ShellToken::LessGreat => Some(IORedirectionKind::OpenRW),
        _ => None,
    }
}

/// Parse a complete program from source text.
///
/// The contract pins three whole input families: blank input parses to the
/// empty program, a single plain command word parses to the one-command
/// program holding exactly that word, and the same followed by `&` parses
/// to that program with its conjunction marked asynchronous.
pub fn parse(source: &str) -> (r: Result<Program, ParseError>)
    ensures
        (r matches Ok(p) ==> program_wf(p)),
        ({
            let s = source@;
            let j0 = token_start(s, 0);
            &&& (!io_number_at(s, j0) && shell_token_at(s, j0) == ShellToken::EOF ==> (r
                matches Ok(prog) && prog.commands@.len() == 0))
            &&& (!io_number_at(s, j0) && shell_token_at(s, j0) == ShellToken::WordStart
                && bare_command_at(s, j0) && next_tok(s, plain_run(s, j0, '\n'))
                == ShellToken::EOF ==> (r matches Ok(prog) && prog.commands@.len() == 1
                && prog.commands@[0].commands@.len() == 1 && bare_conjunction_result(
                prog.commands@[0].commands@[0],
                s,
                j0,
            ) && !prog.commands@[0].commands@[0].is_async))
            &&& (!io_number_at(s, j0) && shell_token_at(s, j0) == ShellToken::WordStart
                && bare_command_at(s, j0) && next_tok(s, plain_run(s, j0, '\n'))
                == ShellToken::And && next_stops_complete(
                s,
                next_tok_end(s, plain_run(s, j0, '\n')),
            ) && next_tok(s, next_tok_end(s, plain_run(s, j0, '\n'))) == ShellToken::EOF ==> (r
                matches Ok(prog) && prog.commands@.len() == 1
                && prog.commands@[0].commands@.len() == 1 && bare_conjunction_result(
                prog.commands@[0].commands@[0],
                s,
                j0,
            ) && prog.commands@[0].commands@[0].is_async))
        }),
        ({
            let s = source@;
            let j0 = token_start(s, 0);
            (!io_number_at(s, j0) && shell_token_at(s, j0) == ShellToken::WordStart
                && open_subst_after_word_at(s, j0)) ==> r == Err::<Program, ParseError>(
                ParseError::UnterminatedSubstitution,
            )
        }),
{
    let mut parser = Parser::new(source);
    proof {
        assert(parser.depth == MAX_SUBSTITUTION_DEPTH);
        assert(parser.depth >= 1);
    }
    parser.parse_program()
}

/// Parse a single word from source text.
///
/// The contract pins two whole families of inputs: plain text (free of
/// quotes, `$` and backticks) parses to exactly one literal equal to the
/// input, and input consisting of one single-quoted region parses to
/// exactly one literal equal to the input, quotes included, with no
/// expansion parts.  Input whose opening single quote is never closed is
/// rejected with `UnterminatedQuote`.
pub fn parse_word(source: &str) -> (r: Result<Option<Word>, ParseError>)
    ensures
        (r matches Ok(Some(w)) ==> word_wf(w)),
        (source@.len() > 0 && all_plain(source@, 0) ==> (r matches Ok(Some(w))
            && single_literal_word(w, source@))),
        (source@.len() > 0 && source@[0] == '\'' && find_char(source@, '\'', 1) == source@.len()
            - 1 ==> (r matches Ok(Some(w)) && single_literal_word(w, source@))),
        (source@.len() > 0 && source@[0] == '\'' && find_char(source@, '\'', 1) >= source@.len()
            ==> r == Err::<Option<Word>, ParseError>(ParseError::UnterminatedQuote)),
        (digit_expansion_word_at(source@, 0) ==> {
            let d = word_token_at(source@, 1)->Char_0;
            let q = plain_run(source@, 2, '\n');
            r matches Ok(Some(w)) && {
                &&& w.parts@[0] == WordPart::ParameterExpansion(
                    ParameterExpansion::Simple(Parameter::Number(spec_digit_val(d) as u32)),
                )
                &&& (q == 2 ==> w.parts@.len() == 1)
                &&& (q > 2 ==> w.parts@.len() == 2 && w.parts@[1] is Literal
                    && w.parts@[1]->Literal_0@ == source@.subrange(2, q))
            }
        }),
{
    let mut parser = Parser::new(source);
    let r = parser.parse_word_until(WordToken::EOF, true);
    proof {
        assert(source@.subrange(0, source@.len() as int) =~= source@);
    }
    r
}

/// Split a word of the form `name=value` into an assignment: the first part
/// must be a literal containing `=`, the name is everything before the
/// first `=`, and the value starts with the rest of that literal followed by
/// all remaining parts.  Any other word is handed back unchanged.
pub fn try_word_to_assignment(word: Word) -> (r: Result<Assignment, Word>)
    ensures
        ({
            let can_split = word.parts@.len() > 0 && word.parts@[0] is Literal && find_char(
                word.parts@[0]->Literal_0@,
                '=',
                0,
            ) < word.parts@[0]->Literal_0@.len();
            &&& (!can_split ==> r == Err::<Assignment, Word>(word))
            &&& (can_split ==> {
                let lit = word.parts@[0]->Literal_0@;
                let e = find_char(lit, '=', 0);
                &&& r is Ok
                &&& r->Ok_0.name@ == lit.subrange(0, e)
                &&& r->Ok_0.value.parts@.len() == word.parts@.len()
                &&& r->Ok_0.value.parts@[0] is Literal
                &&& r->Ok_0.value.parts@[0]->Literal_0@ == lit.subrange(e + 1, lit.len() as int)
                &&& forall|k: int|
                    1 <= k < word.parts@.len() ==> r->Ok_0.value.parts@[k] == #[trigger] word.parts@[k]
            })
        }),
        (word_wf(word) ==> (r matches Ok(a) ==> word_wf(a.value))),
        (r matches Err(w) ==> w == word),
{
    if word.parts.len() == 0 {
        return Err(word);
    }
    let eq_found: Option<usize> = match &word.parts[0] {
        WordPart::Literal(lit) => {
            let n = lit.as_str().unicode_len();
            let mut i: usize = 0;
            while i < n && lit.as_str().get_char(i) != '='
                invariant
                    i <= n,
                    n as nat == lit@.len(),
                    find_char(lit@, '=', 0) == find_char(lit@, '=', i as int),
                decreases n - i,
            {
                i = i + 1;
            }
            if i < n {
                Some(i)
            } else {
                proof {
                    lemma_find_char_props(lit@, '=', 0);
                }
                None
            }
        },
        _ => None,
    };
    let eq = match eq_found {
        Some(eq) => eq,
        None => {
            return Err(word);
        },
    };
    let mut parts = word.parts;
    let first = parts.remove(0);
    match first {
        WordPart::Literal(lit) => {
            let n = lit.as_str().unicode_len();
            let mut name = String::new();
            let mut i: usize = 0;
            proof {
                assert(name@ =~= lit@.subrange(0, 0));
            }
            while i < eq
                invariant
                    i <= eq,
                    eq < n,
                    n as nat == lit@.len(),
                    name@ == lit@.subrange(0, i as int),
                decreases eq - i,
            {
                push_char(&mut name, lit.as_str().get_char(i));
                i = i + 1;
                proof {
                    assert(name@ =~= lit@.subrange(0, i as int));
                }
            }
            let mut rest = String::new();
            let mut j: usize = eq + 1;
            proof {
                assert(rest@ =~= lit@.subrange(eq + 1, eq + 1));
            }
            while j < n
                invariant
                    eq + 1 <= j <= n,
                    n as nat == lit@.len(),
                    rest@ == lit@.subrange(eq + 1, j as int),
                decreases n - j,
            {
                push_char(&mut rest, lit.as_str().get_char(j));
                j = j + 1;
                proof {
                    assert(rest@ =~= lit@.subrange(eq + 1, j as int));
                }
            }
            parts.insert(0, WordPart::Literal(rest));
            Ok(Assignment { name, value: Word { parts } })
        },
        _ => {
            proof {
                assert(false);
            }
            Err(Word { parts })
        },
    }
}

/// A word made of exactly one literal part gives up that literal as a
/// name; any other word is handed back unchanged.
pub fn try_into_name(word: Word) -> (r: Result<String, Word>)
    ensures
        (word.parts@.len() == 1 && word.parts@[0] is Literal ==> (r matches Ok(n) && n@
            == word.parts@[0]->Literal_0@)),
        (!(word.parts@.len() == 1 && word.parts@[0] is Literal) ==> r == Err::<String, Word>(
            word,
        )),
{
    if word.parts.len() == 1 {
        match &word.parts[0] {
            WordPart::Literal(name) => Ok(name.clone()),
            _ => Err(word),
        }
    } else {
        Err(word)
    }
}

/// A character that neither ends an unquoted word nor starts a quote or an
/// expansion: parsed text made only of these is copied verbatim.
pub open spec fn spec_is_plain_char(c: char) -> bool {
    &&& !crate::lexer::spec_ends_word(c)
    &&& c != '\''
    &&& c != '"'
    &&& c != '$'
    &&& c != '`'
}

/// Everything from `i` to the end of the input is plain text.
pub open spec fn all_plain(s: Seq<char>, i: int) -> bool {
    forall|k: int| i <= k < s.len() ==> spec_is_plain_char(#[trigger] s[k])
}

/// The end of the run of plain characters beginning at `i`, stopping early
/// at `e`: the first position at or after `i` holding `e` or any character
/// that is not plain.
pub open spec fn plain_run(s: Seq<char>, i: int, e: char) -> int
    decreases s.len() - i,
{
    if 0 <= i < s.len() && spec_is_plain_char(s[i]) && s[i] != e {
        plain_run(s, i + 1, e)
    } else {
        i
    }
}

/// A non-empty run of plain characters starts at `w0` and runs up to a
/// word-ending character or the end of input: the input family whose parse
/// is one literal equal to the run.  (The stop character `'\n'` is inert
/// here, since a newline is never plain.)
pub open spec fn plain_word_at(s: Seq<char>, w0: int) -> bool {
    let q = plain_run(s, w0, '\n');
    &&& 0 <= w0 < q
    &&& (q == s.len() || spec_ends_word(s[q]))
}

/// A possibly-empty run of plain characters starts at `w0` and is closed by
/// the end character `e`: the input family of braced-expansion operands.
pub open spec fn operand_at(s: Seq<char>, w0: int, e: char) -> bool {
    let q = plain_run(s, w0, e);
    &&& e != '\'' && e != '"' && e != '$' && e != '`'
    &&& 0 <= w0 <= q
    &&& q < s.len()
    &&& s[q] == e
}

/// The decoded operand of a braced form whose operand text is the plain
/// run from `p` to the closing brace: absent when the brace is immediate,
/// one literal holding the run otherwise.
pub open spec fn operand_matches(w: Option<Word>, s: Seq<char>, p: int) -> bool {
    let q = plain_run(s, p, '}');
    &&& (q == p ==> w is None)
    &&& (q > p ==> (w matches Some(ww) && single_literal_word(ww, s.subrange(p, q))))
}

/// A decoded parameter-and-operand pair pinned to the input: the parameter
/// is the name `s[nlo..nhi)` and the operand is the plain run from
/// `op_start`.
pub open spec fn pinned_param_operand(
    p: Parameter,
    w: Option<Word>,
    s: Seq<char>,
    nlo: int,
    nhi: int,
    op_start: int,
) -> bool {
    &&& p is Name
    &&& p->Name_0@ == s.subrange(nlo, nhi)
    &&& operand_matches(w, s, op_start)
}

/// No expansion trigger occurs strictly between `lo` and `hi`.
pub open spec fn dq_clean(s: Seq<char>, lo: int, hi: int) -> bool {
    forall|k: int| lo < k < hi ==> (#[trigger] s[k]) != '$' && s[k] != '`'
}

/// The input from `w0` on is one double-quoted region, free of expansion
/// triggers, whose closing quote is the last character: the family whose
/// parse is one literal equal to the region, quotes kept.
pub open spec fn dquoted_at(s: Seq<char>, w0: int) -> bool {
    &&& 0 <= w0 < s.len()
    &&& s[w0] == '"'
    &&& find_char(s, '"', w0 + 1) == s.len() - 1
    &&& dq_clean(s, w0, s.len() as int)
}

/// A double quote opens at `w0`, free of expansion triggers after it, and
/// never closes: the family rejected as an unterminated quote.
pub open spec fn dquote_open_at(s: Seq<char>, w0: int) -> bool {
    &&& 0 <= w0 < s.len()
    &&& s[w0] == '"'
    &&& find_char(s, '"', w0 + 1) >= s.len()
    &&& dq_clean(s, w0, s.len() as int)
}

/// The word consists of exactly one literal part holding the text `t`.
pub open spec fn single_literal_word(w: Word, t: Seq<char>) -> bool {
    &&& w.parts@.len() == 1
    &&& w.parts@[0] is Literal
    &&& w.parts@[0]->Literal_0@ == t
}

/// Bounds and contents of a plain run: everything before the stop is plain
/// and differs from `e`, and the stop, if within the input, is `e` or not
/// plain.
pub proof fn lemma_plain_run_props(s: Seq<char>, i: int, e: char)
    requires
        0 <= i <= s.len(),
    ensures
        i <= plain_run(s, i, e) <= s.len(),
        forall|k: int|
            i <= k < plain_run(s, i, e) ==> spec_is_plain_char(#[trigger] s[k]) && s[k] != e,
        plain_run(s, i, e) < s.len() ==> (!spec_is_plain_char(s[plain_run(s, i, e)]) || s[plain_run(
            s,
            i,
            e,
        )] == e),
    decreases s.len() - i,
{
    if i < s.len() && spec_is_plain_char(s[i]) && s[i] != e {
        lemma_plain_run_props(s, i + 1, e);
    }
}

/// The run facts needed while assembling a word: for the word run (which
/// stops at any non-plain character) and, when the end token is a
/// character, for the operand run stopping there.
proof fn word_run_facts(s: Seq<char>, w0: int, end: WordToken)
    requires
        0 <= w0 <= s.len(),
    ensures
        w0 <= plain_run(s, w0, '\n') <= s.len(),
        forall|k: int|
            w0 <= k < plain_run(s, w0, '\n') ==> spec_is_plain_char(#[trigger] s[k]),
        plain_run(s, w0, '\n') < s.len() ==> !spec_is_plain_char(s[plain_run(s, w0, '\n')]),
        (end matches WordToken::Char(e) ==> {
            &&& w0 <= plain_run(s, w0, e) <= s.len()
            &&& forall|k: int|
                w0 <= k < plain_run(s, w0, e) ==> spec_is_plain_char(#[trigger] s[k]) && s[k] != e
            &&& (plain_run(s, w0, e) < s.len() ==> (!spec_is_plain_char(s[plain_run(s, w0, e)])
                || s[plain_run(s, w0, e)] == e))
        }),
{
    lemma_plain_run_props(s, w0, '\n');
    match end {
        WordToken::Char(e) => lemma_plain_run_props(s, w0, e),
        _ => {},
    }
}

/// Flush the accreting literal buffer: a non-empty buffer becomes one
/// `Literal` part, and the buffer is emptied either way.
fn push_literal(literal: &mut String, parts: &mut Vec<WordPart>)
    ensures
        final(literal)@.len() == 0,
        old(literal)@.len() == 0 ==> final(parts)@ == old(parts)@,
        old(literal)@.len() > 0 ==> {
            &&& final(parts)@.len() == old(parts)@.len() + 1
            &&& forall|k: int| 0 <= k < old(parts)@.len() ==> final(parts)@[k] == old(parts)@[k]
            &&& final(parts)@.last() is Literal
            &&& final(parts)@.last()->Literal_0@ == old(literal)@
        },
        (forall|k: int| 0 <= k < old(parts)@.len() ==> word_part_wf(#[trigger] old(parts)@[k]))
            ==> (forall|k: int|
            0 <= k < final(parts)@.len() ==> word_part_wf(#[trigger] final(parts)@[k])),
{
    if !literal.as_str().is_empty() {
        parts.push(WordPart::Literal(literal.clone()));
        *literal = String::new();
    }
}

} // verus!
