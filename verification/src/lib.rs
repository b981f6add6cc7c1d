//! Verified front ends for a small family of POSIX utilities: the lexical
//! and syntactic analysis of the shell command language, the line-oriented
//! command and buffer handling of the `ed` editor, the data conversions of
//! `dd`, and the argument handling of a minimal interactive shell.

pub mod ast;
pub mod awk;
pub mod buffer;
pub mod dd;
pub mod edcmd;
pub mod editor;
pub mod export;
pub mod lexer;
pub mod parser;
pub mod sh;
pub mod text;
