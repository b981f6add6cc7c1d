//! Abstract syntax of the POSIX shell command language, as produced by the
//! parser in [`crate::parser`].
//!
//! Invariants that every tree handed out by the parser obeys are captured by
//! the `*_wf` spec functions at the bottom of this module: a `Word` never has
//! zero parts, a `Pipeline` and a `Conjunction` are never empty, and in a
//! `Conjunction` every element but the last carries `And` or `Or` while the
//! last always carries the `End` sentinel.

use vstd::prelude::*;

verus! {

/// A parameter that can be expanded: a named variable, a positional
/// parameter, or one of the one-character special parameters
/// (`@ * # ? - $ !`).
#[derive(Debug, Clone, PartialEq, Eq)]
pub enum Parameter {
    Name(String),
    Number(u32),
    Special(char),
}

/// The twelve forms of the `$name` / `${...}` micro-grammar.  The forms whose
/// name begins with `NullUnset` trigger when the parameter is unset *or* set
/// to the empty string; the corresponding `Unset` forms trigger only when it
/// is wholly unset.
#[derive(Debug, PartialEq)]
pub enum ParameterExpansion {
    Simple(Parameter),
    StrLen(Parameter),
    UnsetUseDefault(Parameter, Option<Word>),
    NullUnsetUseDefault(Parameter, Option<Word>),
    UnsetAssignDefault(Parameter, Option<Word>),
    NullUnsetAssignDefault(Parameter, Option<Word>),
    UnsetError(Parameter, Option<Word>),
    NullUnsetError(Parameter, Option<Word>),
    SetNullUseAlternative(Parameter, Option<Word>),
    SetUseAlternative(Parameter, Option<Word>),
    RemoveSmallestSuffix(Parameter, Option<Word>),
    RemoveLargestSuffix(Parameter, Option<Word>),
    RemoveSmallestPrefix(Parameter, Option<Word>),
    RemoveLargestPrefix(Parameter, Option<Word>),
}

/// Placeholder for the arithmetic-expression sub-grammar, which is consumed
/// by an external evaluator; the parser only captures the raw text between
/// `$((` and the matching `))`.
#[derive(Debug, Clone, PartialEq)]
pub struct ArithmeticExpr {
    pub text: String,
}

/// One piece of a word: literal text, or one of the three expansion forms.
#[derive(Debug, PartialEq)]
pub enum WordPart {
    Literal(String),
    ParameterExpansion(ParameterExpansion),
    CommandSubstitution(Program),
    ArithmeticExpansion(ArithmeticExpr),
}

/// A shell word: an ordered, never-empty sequence of parts.  The absence of
/// a word is always represented by an `Option`, never by zero parts.
#[derive(Debug, PartialEq)]
pub struct Word {
    pub parts: Vec<WordPart>,
}

/// A variable assignment `name=value` prefixed to a simple command.
#[derive(Debug, PartialEq)]
pub struct Assignment {
    pub name: String,
    pub value: Word,
}

/// The seven input/output redirection operators.
#[derive(Debug, Clone, Copy, PartialEq, Eq, Structural)]
pub enum IORedirectionKind {
    RedirectOutput,
    RedirectOutputClobber,
    RedirectOutputAppend,
    DuplicateOutput,
    RedirectInput,
    DuplicateInput,
    OpenRW,
}

/// Either an ordinary redirection to a file target, or a here-document whose
/// contents were captured line by line without tokenization.
#[derive(Debug, PartialEq)]
pub enum RedirectionKind {
    IORedirection { kind: IORedirectionKind, file: Word },
    HereDocument { contents: String, strip_leading_tabs: bool },
}

/// A redirection with its optional 0-9 file-descriptor prefix.
#[derive(Debug, PartialEq)]
pub struct Redirection {
    pub file_descriptor: Option<u32>,
    pub kind: RedirectionKind,
}

/// A simple command: optional command word, its arguments, the assignment
/// prefix, and any redirections.
#[derive(Debug, PartialEq)]
pub struct SimpleCommand {
    pub command: Option<Word>,
    pub arguments: Vec<Word>,
    pub assignments: Vec<Assignment>,
    pub redirections: Vec<Redirection>,
}

/// Reserved slot for the compound-command grammar (`if`, `while`, `case`,
/// ...), which this front end does not yet produce.
#[derive(Debug, Clone, PartialEq, Eq, Structural)]
pub struct CompoundCommand {
    pub reserved: bool,
}

/// Reserved slot for function definitions, which this front end does not yet
/// produce.
#[derive(Debug, Clone, PartialEq, Eq, Structural)]
pub struct FunctionDefinition {
    pub reserved: bool,
}

/// A command of any shape; only `SimpleCommand` is produced today.
#[derive(Debug, PartialEq)]
pub enum Command {
    SimpleCommand(SimpleCommand),
    CompoundCommand(CompoundCommand),
    FunctionDefinition(FunctionDefinition),
}

/// The logical operator that *follows* a pipeline inside a conjunction.
/// `End` is the sentinel carried by the last pipeline of the chain.
#[derive(Debug, Clone, Copy, PartialEq, Eq, Structural)]
pub enum LogicalOp {
    And,
    Or,
    End,
}

/// One or more commands connected by `|`, in source order.
#[derive(Debug, PartialEq)]
pub struct Pipeline {
    pub commands: Vec<Command>,
}

/// A chain of pipelines connected by `&&` / `||`; each element carries the
/// operator that follows it, and `is_async` records a trailing `&`.
#[derive(Debug, PartialEq)]
pub struct Conjunction {
    pub elements: Vec<(Pipeline, LogicalOp)>,
    pub is_async: bool,
}

/// The conjunctions of one line, separated by `;` or `&`.
#[derive(Debug, PartialEq)]
pub struct CompleteCommand {
    pub commands: Vec<Conjunction>,
}

/// A whole parsed program: the parser's output.
#[derive(Debug, PartialEq)]
pub struct Program {
    pub commands: Vec<CompleteCommand>,
}

/// Well-formedness of a word: at least one part, all parts well formed.
pub open spec fn word_wf(w: Word) -> bool
    decreases w,
{
    &&& w.parts@.len() > 0
    &&& forall|i: int| 0 <= i < w.parts@.len() ==> word_part_wf(#[trigger] w.parts@[i])
}

/// Well-formedness of one word part; a command substitution carries a well
/// formed program.
pub open spec fn word_part_wf(p: WordPart) -> bool
    decreases p,
{
    match p {
        WordPart::Literal(_) => true,
        WordPart::ParameterExpansion(e) => parameter_expansion_wf(e),
        WordPart::CommandSubstitution(prog) => program_wf(prog),
        WordPart::ArithmeticExpansion(_) => true,
    }
}

/// Well-formedness of a parameter expansion: its operand word, if present,
/// is well formed.
pub open spec fn parameter_expansion_wf(e: ParameterExpansion) -> bool
    decreases e,
{
    match e {
        ParameterExpansion::Simple(_) => true,
        ParameterExpansion::StrLen(_) => true,
        ParameterExpansion::UnsetUseDefault(_, w) => opt_word_wf(w),
        ParameterExpansion::NullUnsetUseDefault(_, w) => opt_word_wf(w),
        ParameterExpansion::UnsetAssignDefault(_, w) => opt_word_wf(w),
        ParameterExpansion::NullUnsetAssignDefault(_, w) => opt_word_wf(w),
        ParameterExpansion::UnsetError(_, w) => opt_word_wf(w),
        ParameterExpansion::NullUnsetError(_, w) => opt_word_wf(w),
        ParameterExpansion::SetNullUseAlternative(_, w) => opt_word_wf(w),
        ParameterExpansion::SetUseAlternative(_, w) => opt_word_wf(w),
        ParameterExpansion::RemoveSmallestSuffix(_, w) => opt_word_wf(w),
        ParameterExpansion::RemoveLargestSuffix(_, w) => opt_word_wf(w),
        ParameterExpansion::RemoveSmallestPrefix(_, w) => opt_word_wf(w),
        ParameterExpansion::RemoveLargestPrefix(_, w) => opt_word_wf(w),
    }
}

/// Well-formedness of an optional operand word.
pub open spec fn opt_word_wf(w: Option<Word>) -> bool
    decreases w,
{
    match w {
        Option::Some(inner) => word_wf(inner),
        Option::None => true,
    }
}

/// Well-formedness of a redirection: an IO redirection's target word is well
/// formed, and a file-descriptor prefix is in the range 0..=9.
pub open spec fn redirection_wf(r: Redirection) -> bool
    decreases r,
{
    &&& match r.file_descriptor {
        Option::Some(n) => n <= 9,
        Option::None => true,
    }
    &&& match r.kind {
        RedirectionKind::IORedirection { kind: _, file } => word_wf(file),
        RedirectionKind::HereDocument { .. } => true,
    }
}

/// Well-formedness of a simple command: every word in it is well formed.
pub open spec fn simple_command_wf(c: SimpleCommand) -> bool
    decreases c,
{
    &&& opt_word_wf(c.command)
    &&& forall|i: int| 0 <= i < c.arguments@.len() ==> word_wf(#[trigger] c.arguments@[i])
    &&& forall|i: int| 0 <= i < c.assignments@.len() ==> word_wf((#[trigger] c.assignments@[i]).value)
    &&& forall|i: int|
        0 <= i < c.redirections@.len() ==> redirection_wf(#[trigger] c.redirections@[i])
}

/// Well-formedness of a command of any shape.
pub open spec fn command_wf(c: Command) -> bool
    decreases c,
{
    match c {
        Command::SimpleCommand(sc) => simple_command_wf(sc),
        Command::CompoundCommand(_) => true,
        Command::FunctionDefinition(_) => true,
    }
}

/// Well-formedness of a pipeline: at least one command, all well formed.
pub open spec fn pipeline_wf(p: Pipeline) -> bool
    decreases p,
{
    &&& p.commands@.len() > 0
    &&& forall|i: int| 0 <= i < p.commands@.len() ==> command_wf(#[trigger] p.commands@[i])
}

/// Well-formedness of a conjunction: at least one element, every element but
/// the last carries `And` or `Or`, the last carries the `End` sentinel, and
/// every pipeline is well formed.
pub open spec fn conjunction_wf(c: Conjunction) -> bool
    decreases c,
{
    &&& c.elements@.len() > 0
    &&& forall|i: int| 0 <= i < c.elements@.len() ==> pipeline_wf((#[trigger] c.elements@[i]).0)
    &&& forall|i: int|
        0 <= i < c.elements@.len() - 1 ==> (#[trigger] c.elements@[i]).1 != LogicalOp::End
    &&& c.elements@.last().1 == LogicalOp::End
}

/// Well-formedness of a complete command: all conjunctions well formed.
pub open spec fn complete_command_wf(c: CompleteCommand) -> bool
    decreases c,
{
    forall|i: int| 0 <= i < c.commands@.len() ==> conjunction_wf(#[trigger] c.commands@[i])
}

/// Well-formedness of a whole program.
pub open spec fn program_wf(p: Program) -> bool
    decreases p,
{
    forall|i: int| 0 <= i < p.commands@.len() ==> complete_command_wf(#[trigger] p.commands@[i])
}

} // verus!
